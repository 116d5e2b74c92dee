//! Bytes as hexadecimal text.

#[allow(unused_imports)]
use crate::utils::text;
use crate::utils::text::push_hex;
use vstd::prelude::*;

verus! {

/// Two lower-case hexadecimal digits for each byte.
pub fn encode(bytes: &[u8]) -> (s: String)
    ensures
        s@ == text::hex_of(bytes@),
{
    let mut s = String::new();
    let mut i: usize = 0;
    assert(bytes@.subrange(0, 0) =~= Seq::empty());
    while i < bytes.len()
        invariant
            i <= bytes@.len(),
            s@ == text::hex_of(bytes@.subrange(0, i as int)),
        decreases bytes@.len() - i,
    {
        proof {
            let upto = bytes@.subrange(0, i + 1);
            assert(upto.drop_last() =~= bytes@.subrange(0, i as int));
        }
        push_hex(&mut s, bytes[i]);
        i = i + 1;
    }
    assert(bytes@.subrange(0, i as int) =~= bytes@);
    s
}

/// Text is twice as long as the bytes.
pub proof fn law_hex_doubles_length(data: Seq<u8>)
    ensures
        text::hex_of(data).len() == 2 * data.len(),
    decreases data.len(),
{
    if data.len() > 0 {
        law_hex_doubles_length(data.drop_last());
    }
}

/// Different bytes have different text.
pub proof fn law_hex_tells_bytes_apart(a: Seq<u8>, b: Seq<u8>)
    requires
        text::hex_of(a) == text::hex_of(b),
    ensures
        a == b,
    decreases a.len(),
{
    law_hex_doubles_length(a);
    law_hex_doubles_length(b);
    if a.len() > 0 {
        let (s, t) = (text::hex_of(a), text::hex_of(b));
        let n = s.len() as int;
        law_hex_doubles_length(a.drop_last());
        law_hex_doubles_length(b.drop_last());
        assert(s.subrange(0, n - 2) =~= text::hex_of(a.drop_last()));
        assert(t.subrange(0, n - 2) =~= text::hex_of(b.drop_last()));
        law_hex_tells_bytes_apart(a.drop_last(), b.drop_last());
        assert(s[n - 2] == text::digit_char((a.last() / 16) as int));
        assert(s[n - 1] == text::digit_char((a.last() % 16) as int));
        assert(t[n - 2] == text::digit_char((b.last() / 16) as int));
        assert(t[n - 1] == text::digit_char((b.last() % 16) as int));
        assert(a =~= a.drop_last().push(a.last()));
        assert(b =~= b.drop_last().push(b.last()));
    } else {
        assert(a =~= b);
    }
}

} // verus!
