//! SOCKS5 addresses: their wire form and their text.

use crate::utils::bytes::{copy_range, get_u16_be, put_all, put_u16_be};
#[allow(unused_imports)]
use crate::utils::bytes;
use crate::utils::text::{decimal, digit, join, push_char};
#[allow(unused_imports)]
use crate::utils::text;
use crate::utils::{PhantomError, PhantomResult};
use vstd::prelude::*;
use vstd::string::StringExecFns;
#[allow(unused_imports)]
use vstd::utf8::*;

verus! {

pub const ADDR_TYPE_IPV4: u8 = 0x01;

pub const ADDR_TYPE_DOMAIN: u8 = 0x03;

pub const ADDR_TYPE_IPV6: u8 = 0x04;

/// Where a connection goes: a host and a port. An IP address is held by its octets in
/// network order.
#[derive(Debug)]
pub enum Socks5Address {
    Ipv4([u8; 4], u16),
    Ipv6([u8; 16], u16),
    Domain(String, u16),
}

/// What an address says.
#[verifier::ext_equal]
pub enum AddressView {
    Ipv4(Seq<u8>, u16),
    Ipv6(Seq<u8>, u16),
    Domain(Seq<char>, u16),
}

impl View for Socks5Address {
    type V = AddressView;

    open spec fn view(&self) -> AddressView {
        match self {
            Socks5Address::Ipv4(ip, port) => AddressView::Ipv4(ip@, *port),
            Socks5Address::Ipv6(ip, port) => AddressView::Ipv6(ip@, *port),
            Socks5Address::Domain(name, port) => AddressView::Domain(name@, *port),
        }
    }
}

/// Why `String::from_utf8` refuses bytes, in its error's words.
pub uninterp spec fn utf8_fault(data: Seq<u8>) -> Seq<char>;

/// `std::string::String::from_utf8`. Claimed: bytes that are UTF-8 give the text they
/// encode; others give an error whose text is named.
#[verifier::external_body]
fn text_from_utf8(data: Vec<u8>) -> (r: Result<String, String>)
    ensures
        r is Ok == valid_utf8(data@),
        r is Ok ==> r->Ok_0@ == decode_utf8(data@),
        r is Err ==> r->Err_0@ == utf8_fault(data@),
{
    String::from_utf8(data).map_err(|e| e.to_string())
}

/// A number in hexadecimal, without leading zeros.
pub open spec fn hexadecimal_of(n: nat) -> Seq<char>
    decreases n,
{
    if n < 16 {
        seq![text::digit_char(n as int)]
    } else {
        hexadecimal_of(n / 16).push(text::digit_char((n % 16) as int))
    }
}

/// The eight groups of an IPv6 address.
pub open spec fn groups_of(octets: Seq<u8>) -> Seq<int> {
    Seq::new(8, |i: int| bytes::be_u16_at(octets, 2 * i))
}

/// How many groups in a row are 0 from `at` on.
pub open spec fn zeros_from(groups: Seq<int>, at: int) -> int
    decreases groups.len() - at,
{
    if at < 0 || at >= groups.len() || groups[at] != 0 {
        0
    } else {
        1 + zeros_from(groups, at + 1)
    }
}

/// Where, of the first `n` places, the longest run of zero groups begins; of several, the
/// first.
pub open spec fn longest_zeros(groups: Seq<int>, n: int) -> int
    decreases n,
{
    if n <= 0 {
        0
    } else {
        let best = longest_zeros(groups, n - 1);
        if zeros_from(groups, n - 1) > zeros_from(groups, best) {
            n - 1
        } else {
            best
        }
    }
}

/// Groups in hexadecimal, with colons between them.
pub open spec fn colon_text(groups: Seq<int>) -> Seq<char>
    decreases groups.len(),
{
    if groups.len() == 0 {
        Seq::empty()
    } else if groups.len() == 1 {
        hexadecimal_of(groups[0] as nat)
    } else {
        colon_text(groups.drop_last()).push(':') + hexadecimal_of(groups.last() as nat)
    }
}

/// Octets in decimal, with dots between them.
pub open spec fn dotted_text(octets: Seq<u8>) -> Seq<char>
    decreases octets.len(),
{
    if octets.len() == 0 {
        Seq::empty()
    } else if octets.len() == 1 {
        text::decimal_of(octets[0] as nat)
    } else {
        dotted_text(octets.drop_last()).push('.') + text::decimal_of(octets.last() as nat)
    }
}

/// Whether an IPv6 address stands for an IPv4 address.
pub open spec fn is_mapped(groups: Seq<int>) -> bool {
    groups.take(5) == seq![0int, 0, 0, 0, 0] && groups[5] == 0xFFFF
}

/// The canonical text of an IPv6 address: the longest run of at least two zero groups
/// becomes a double colon, and a mapped IPv4 address keeps its dots.
pub open spec fn ipv6_text(octets: Seq<u8>) -> Seq<char> {
    let groups = groups_of(octets);
    let at = longest_zeros(groups, 8);
    let zeros = zeros_from(groups, at);
    if is_mapped(groups) {
        "::ffff:"@ + dotted_text(octets.subrange(12, 16))
    } else if zeros > 1 {
        colon_text(groups.take(at)) + "::"@ + colon_text(groups.skip(at + zeros))
    } else {
        colon_text(groups)
    }
}

impl AddressView {
    /// The host as text.
    pub open spec fn host(self) -> Seq<char> {
        match self {
            AddressView::Ipv4(ip, _) => dotted_text(ip),
            AddressView::Ipv6(ip, _) => ipv6_text(ip),
            AddressView::Domain(name, _) => name,
        }
    }

    pub open spec fn port(self) -> u16 {
        match self {
            AddressView::Ipv4(_, port) => port,
            AddressView::Ipv6(_, port) => port,
            AddressView::Domain(_, port) => port,
        }
    }

    /// The wire form: a type byte, the host and the port. A name has its length in one
    /// byte before it, of which only the low eight bits are kept.
    pub open spec fn wire(self) -> Seq<u8> {
        match self {
            AddressView::Ipv4(ip, port) => seq![ADDR_TYPE_IPV4] + ip + bytes::u16_be(port),
            AddressView::Ipv6(ip, port) => seq![ADDR_TYPE_IPV6] + ip + bytes::u16_be(port),
            AddressView::Domain(name, port) => seq![
                ADDR_TYPE_DOMAIN,
                (encode_utf8(name).len() % 256) as u8,
            ] + encode_utf8(name) + bytes::u16_be(port),
        }
    }
}

/// What the bytes read so far come to: more are needed, they are refused, or they hold an
/// address.
#[verifier::ext_equal]
pub enum AddressRead {
    Need(int),
    Bad(Seq<char>),
    Done(AddressView),
}

/// Reads an address that starts with its type byte.
pub open spec fn address_read(data: Seq<u8>) -> AddressRead {
    if data.len() == 0 {
        AddressRead::Need(1)
    } else if data[0] == ADDR_TYPE_IPV4 {
        if data.len() < 7 {
            AddressRead::Need(7 - data.len())
        } else {
            AddressRead::Done(
                AddressView::Ipv4(data.subrange(1, 5), bytes::be_u16_at(data, 5) as u16),
            )
        }
    } else if data[0] == ADDR_TYPE_IPV6 {
        if data.len() < 19 {
            AddressRead::Need(19 - data.len())
        } else {
            AddressRead::Done(
                AddressView::Ipv6(data.subrange(1, 17), bytes::be_u16_at(data, 17) as u16),
            )
        }
    } else if data[0] != ADDR_TYPE_DOMAIN {
        AddressRead::Bad("Unsupported address type: "@ + text::decimal_of(data[0] as nat))
    } else if data.len() == 1 {
        AddressRead::Need(1)
    } else {
        let end = 2 + data[1];
        let name = data.subrange(2, end);
        if data.len() < end {
            AddressRead::Need(end - data.len())
        } else if !valid_utf8(name) {
            AddressRead::Bad("Invalid domain name: "@ + utf8_fault(name))
        } else if data.len() < end + 2 {
            AddressRead::Need(end + 2 - data.len())
        } else {
            AddressRead::Done(
                AddressView::Domain(decode_utf8(name), bytes::be_u16_at(data, end) as u16),
            )
        }
    }
}

impl AddressView {
    /// An IP address has its four or sixteen octets, and a name fits its length byte.
    pub open spec fn fits(self) -> bool {
        match self {
            AddressView::Ipv4(ip, _) => ip.len() == 4,
            AddressView::Ipv6(ip, _) => ip.len() == 16,
            AddressView::Domain(name, _) => encode_utf8(name).len() <= 255,
        }
    }
}

/// The wire form of an address reads back as that address, whatever stands behind it.
pub proof fn law_address_reads_back(a: AddressView, rest: Seq<u8>)
    requires
        a.fits(),
    ensures
        address_read(a.wire() + rest) == AddressRead::Done(a),
{
    let data = a.wire() + rest;
    match a {
        AddressView::Ipv4(ip, port) => {
            assert(data.subrange(1, 5) =~= ip);
            assert(data[5] == port / 256 && data[6] == port % 256);
        },
        AddressView::Ipv6(ip, port) => {
            assert(data.subrange(1, 17) =~= ip);
            assert(data[17] == port / 256 && data[18] == port % 256);
        },
        AddressView::Domain(name, port) => {
            let raw = encode_utf8(name);
            let end = 2 + raw.len() as int;
            assert(data.subrange(2, end) =~= raw);
            assert(data[end] == port / 256 && data[end + 1] == port % 256);
            encode_utf8_valid_utf8(name);
            encode_utf8_decode_utf8(name);
        },
    }
}

/// While an address is still coming in, more bytes are asked for, and never more than the
/// address has left.
pub proof fn law_reading_stays_within_an_address(a: AddressView, got: int)
    requires
        a.fits(),
        0 <= got < a.wire().len(),
    ensures
        address_read(a.wire().take(got)) matches AddressRead::Need(n) && 0 < n <= a.wire().len()
            - got,
{
    let data = a.wire().take(got);
    if let AddressView::Domain(name, _) = a {
        let raw = encode_utf8(name);
        let end = 2 + raw.len() as int;
        encode_utf8_valid_utf8(name);
        if got >= end {
            assert(data.subrange(2, end) =~= raw);
        }
    }
}

/// The run that `longest_zeros` finds is longer than any before it and no shorter than any
/// after it.
pub proof fn law_longest_zeros_is_longest(groups: Seq<int>, n: int)
    requires
        0 < n <= groups.len(),
    ensures
        0 <= longest_zeros(groups, n) < n,
        forall|i: int|
            0 <= i < n ==> #[trigger] zeros_from(groups, i) <= zeros_from(
                groups,
                longest_zeros(groups, n),
            ),
        forall|i: int|
            0 <= i < longest_zeros(groups, n) ==> #[trigger] zeros_from(groups, i) < zeros_from(
                groups,
                longest_zeros(groups, n),
            ),
    decreases n,
{
    reveal_with_fuel(longest_zeros, 2);
    if n > 1 {
        law_longest_zeros_is_longest(groups, n - 1);
    }
}

fn push_hexadecimal(s: &mut String, n: u16)
    ensures
        final(s)@ == old(s)@ + hexadecimal_of(n as nat),
    decreases n,
{
    if n < 16 {
        push_char(s, digit(n as u8));
        assert(s@ =~= old(s)@ + hexadecimal_of(n as nat));
    } else {
        push_hexadecimal(s, n / 16);
        push_char(s, digit((n % 16) as u8));
        assert(s@ =~= old(s)@ + hexadecimal_of(n as nat));
    }
}

/// `groups[from..to]` in hexadecimal, with colons between them.
fn colons(groups: &Vec<u16>, from: usize, to: usize) -> (s: String)
    requires
        from <= to <= groups@.len(),
    ensures
        s@ == colon_text(groups@.map_values(|g: u16| g as int).subrange(from as int, to as int)),
{
    let ghost all = groups@.map_values(|g: u16| g as int);
    let mut s = String::new();
    let mut i: usize = from;
    assert(s@ =~= colon_text(all.subrange(from as int, from as int)));
    while i < to
        invariant
            from <= i <= to <= groups@.len(),
            all == groups@.map_values(|g: u16| g as int),
            s@ == colon_text(all.subrange(from as int, i as int)),
        decreases to - i,
    {
        let ghost before = all.subrange(from as int, i as int);
        let ghost after = all.subrange(from as int, i + 1);
        assert(after.drop_last() =~= before);
        assert(after.last() == groups@[i as int] as int);
        if i > from {
            push_char(&mut s, ':');
        } else {
            assert(before =~= Seq::<int>::empty());
        }
        push_hexadecimal(&mut s, groups[i]);
        assert(s@ =~= colon_text(after));
        i += 1;
    }
    s
}

/// `octets[from..to]` in decimal, with dots between them.
fn dots(octets: &[u8], from: usize, to: usize) -> (s: String)
    requires
        from <= to <= octets@.len(),
    ensures
        s@ == dotted_text(octets@.subrange(from as int, to as int)),
{
    let mut s = String::new();
    let mut i: usize = from;
    assert(s@ =~= dotted_text(octets@.subrange(from as int, from as int)));
    while i < to
        invariant
            from <= i <= to <= octets@.len(),
            s@ == dotted_text(octets@.subrange(from as int, i as int)),
        decreases to - i,
    {
        let ghost before = octets@.subrange(from as int, i as int);
        let ghost after = octets@.subrange(from as int, i + 1);
        assert(after.drop_last() =~= before);
        if i > from {
            push_char(&mut s, '.');
        } else {
            assert(before =~= Seq::<u8>::empty());
        }
        let number = decimal(octets[i] as u128);
        s.append(number.as_str());
        assert(s@ =~= dotted_text(after));
        i += 1;
    }
    s
}

/// How many groups in a row are 0 from `at` on.
fn count_zeros(groups: &Vec<u16>, at: usize) -> (n: usize)
    requires
        at <= groups@.len(),
    ensures
        n == zeros_from(groups@.map_values(|g: u16| g as int), at as int),
        at + n <= groups@.len(),
    decreases groups@.len() - at,
{
    if at >= groups.len() || groups[at] != 0 {
        0
    } else {
        1 + count_zeros(groups, at + 1)
    }
}

/// The canonical text of an IPv6 address.
fn ipv6_host(octets: &[u8]) -> (s: String)
    requires
        octets@.len() == 16,
    ensures
        s@ == ipv6_text(octets@),
{
    let mut groups: Vec<u16> = Vec::new();
    let mut i: usize = 0;
    while i < 8
        invariant
            i <= 8,
            octets@.len() == 16,
            groups@.len() == i,
            forall|k: int|
                0 <= k < i ==> #[trigger] groups@[k] == bytes::be_u16_at(octets@, 2 * k),
        decreases 8 - i,
    {
        groups.push(get_u16_be(octets, 2 * i));
        i += 1;
    }
    let ghost all = groups@.map_values(|g: u16| g as int);
    assert(all =~= groups_of(octets@));
    let mapped = groups[0] == 0 && groups[1] == 0 && groups[2] == 0 && groups[3] == 0 && groups[4]
        == 0 && groups[5] == 0xFFFF;
    proof {
        if mapped {
            assert(all.take(5) =~= seq![0int, 0, 0, 0, 0]);
        } else if is_mapped(all) {
            let head = all.take(5);
            assert(head[0] == 0 && head[1] == 0 && head[2] == 0 && head[3] == 0 && head[4] == 0);
            assert(false);
        }
    }
    if mapped {
        let tail = dots(octets, 12, 16);
        return join("::ffff:", tail.as_str());
    }
    let mut best: usize = 0;
    let mut zeros: usize = count_zeros(&groups, 0);
    i = 1;
    proof {
        reveal_with_fuel(longest_zeros, 2);
    }
    while i < 8
        invariant
            1 <= i <= 8,
            groups@.len() == 8,
            all == groups@.map_values(|g: u16| g as int),
            best < i,
            best == longest_zeros(all, i as int),
            zeros == zeros_from(all, best as int),
            best + zeros <= 8,
        decreases 8 - i,
    {
        let here: usize = count_zeros(&groups, i);
        if here > zeros {
            best = i;
            zeros = here;
        }
        i += 1;
    }
    if zeros > 1 {
        let mut s = colons(&groups, 0, best);
        let tail = colons(&groups, best + zeros, 8);
        s.append("::");
        s.append(tail.as_str());
        assert(all.subrange(0, best as int) =~= all.take(best as int));
        assert(all.subrange(best + zeros, 8) =~= all.skip(best + zeros));
        s
    } else {
        assert(all.subrange(0, 8) =~= all);
        colons(&groups, 0, 8)
    }
}

impl Socks5Address {
    /// The host as text: an IPv4 address with dots, an IPv6 address in its canonical form,
    /// a name as it is.
    pub fn host_str(&self) -> (s: String)
        ensures
            s@ == self@.host(),
    {
        match self {
            Socks5Address::Ipv4(ip, _) => {
                assert(ip@.subrange(0, 4) =~= ip@);
                dots(ip.as_slice(), 0, 4)
            },
            Socks5Address::Ipv6(ip, _) => ipv6_host(ip.as_slice()),
            Socks5Address::Domain(name, _) => name.clone(),
        }
    }

    pub fn port(&self) -> (p: u16)
        ensures
            p == self@.port(),
    {
        match self {
            Socks5Address::Ipv4(_, port) => *port,
            Socks5Address::Ipv6(_, port) => *port,
            Socks5Address::Domain(_, port) => *port,
        }
    }

    /// Appends the wire form.
    pub fn put(&self, out: &mut Vec<u8>)
        ensures
            final(out)@ == old(out)@ + self@.wire(),
    {
        match self {
            Socks5Address::Ipv4(ip, port) => {
                out.push(ADDR_TYPE_IPV4);
                put_all(out, ip.as_slice());
                put_u16_be(out, *port);
            },
            Socks5Address::Ipv6(ip, port) => {
                out.push(ADDR_TYPE_IPV6);
                put_all(out, ip.as_slice());
                put_u16_be(out, *port);
            },
            Socks5Address::Domain(name, port) => {
                let raw = name.as_str().as_bytes();
                out.push(ADDR_TYPE_DOMAIN);
                out.push((raw.len() % 256) as u8);
                put_all(out, raw);
                put_u16_be(out, *port);
            },
        }
        assert(out@ =~= old(out)@ + self@.wire());
    }

    /// The address that nothing was bound to: `0.0.0.0`, port 0.
    pub fn unbound() -> (a: Self)
        ensures
            a@ == AddressView::Ipv4(seq![0u8, 0, 0, 0], 0),
    {
        let a = Socks5Address::Ipv4([0, 0, 0, 0], 0);
        assert(a->Ipv4_0@ =~= seq![0u8, 0, 0, 0]);
        a
    }
}

/// A step of reading an address: how many bytes to read next, or the address.
#[derive(Debug)]
pub enum AddressStep {
    Need(usize),
    Done(Socks5Address),
}

/// What the bytes of an address read so far come to.
pub fn read_address(data: &[u8]) -> (r: PhantomResult<AddressStep>)
    ensures
        match address_read(data@) {
            AddressRead::Need(n) => r matches Ok(AddressStep::Need(m)) && m == n,
            AddressRead::Bad(why) => r matches Err(e) && e.is_lost(why),
            AddressRead::Done(a) => r matches Ok(AddressStep::Done(b)) && b@ == a,
        },
{
    if data.len() == 0 {
        return Ok(AddressStep::Need(1));
    }
    let kind: u8 = data[0];
    if kind == ADDR_TYPE_IPV4 {
        if data.len() < 7 {
            return Ok(AddressStep::Need(7 - data.len()));
        }
        let ip: [u8; 4] = [data[1], data[2], data[3], data[4]];
        assert(ip@ =~= data@.subrange(1, 5));
        Ok(AddressStep::Done(Socks5Address::Ipv4(ip, get_u16_be(data, 5))))
    } else if kind == ADDR_TYPE_IPV6 {
        if data.len() < 19 {
            return Ok(AddressStep::Need(19 - data.len()));
        }
        let ip: [u8; 16] = [
            data[1],
            data[2],
            data[3],
            data[4],
            data[5],
            data[6],
            data[7],
            data[8],
            data[9],
            data[10],
            data[11],
            data[12],
            data[13],
            data[14],
            data[15],
            data[16],
        ];
        assert(ip@ =~= data@.subrange(1, 17));
        Ok(AddressStep::Done(Socks5Address::Ipv6(ip, get_u16_be(data, 17))))
    } else if kind != ADDR_TYPE_DOMAIN {
        let number = decimal(kind as u128);
        Err(PhantomError::ConnectionLost(join("Unsupported address type: ", number.as_str())))
    } else if data.len() == 1 {
        Ok(AddressStep::Need(1))
    } else {
        let end: usize = 2 + data[1] as usize;
        if data.len() < end {
            return Ok(AddressStep::Need(end - data.len()));
        }
        let raw = copy_range(data, 2, end);
        match text_from_utf8(raw) {
            Err(why) => Err(
                PhantomError::ConnectionLost(join("Invalid domain name: ", why.as_str())),
            ),
            Ok(name) => {
                if data.len() < end + 2 {
                    return Ok(AddressStep::Need(end + 2 - data.len()));
                }
                Ok(AddressStep::Done(Socks5Address::Domain(name, get_u16_be(data, end))))
            },
        }
    }
}

impl Clone for Socks5Address {
    fn clone(&self) -> (c: Self)
        ensures
            c@ == self@,
    {
        match self {
            Socks5Address::Ipv4(ip, port) => Socks5Address::Ipv4(*ip, *port),
            Socks5Address::Ipv6(ip, port) => Socks5Address::Ipv6(*ip, *port),
            Socks5Address::Domain(name, port) => Socks5Address::Domain(name.clone(), *port),
        }
    }
}

/// The wire form tells by its first byte what follows: one for four octets, four for sixteen, and
/// three for a name behind its length. The port stands at the end, most significant byte first.
pub proof fn law_wire_form_is_laid_out(a: AddressView)
    requires
        a.fits(),
    ensures
        ({
            let w = a.wire();
            let n = w.len() as int;
            &&& w[n - 2] == a.port() / 256 && w[n - 1] == a.port() % 256
            &&& match a {
                AddressView::Ipv4(ip, _) => n == 7 && w[0] == 1 && w.subrange(1, 5) == ip,
                AddressView::Ipv6(ip, _) => n == 19 && w[0] == 4 && w.subrange(1, 17) == ip,
                AddressView::Domain(name, _) => w[0] == 3 && w[1] == encode_utf8(name).len() && n
                    == 4 + encode_utf8(name).len() && w.subrange(2, n - 2) == encode_utf8(name),
            }
        }),
{
    let w = a.wire();
    bytes::law_byte_orders(a.port(), 0);
    match a {
        AddressView::Ipv4(ip, _) => {
            assert(w.subrange(1, 5) =~= ip);
        },
        AddressView::Ipv6(ip, _) => {
            assert(w.subrange(1, 17) =~= ip);
        },
        AddressView::Domain(name, _) => {
            assert(w.subrange(2, w.len() - 2) =~= encode_utf8(name));
        },
    }
}

/// A further octet is written in decimal behind a dot, and a further group in hexadecimal behind a
/// colon.
pub proof fn law_octets_are_dotted(octets: Seq<u8>, b: u8, groups: Seq<int>, g: int)
    requires
        octets.len() > 0,
        groups.len() > 0,
        g >= 0,
    ensures
        dotted_text(seq![b]) == text::decimal_of(b as nat),
        dotted_text(octets.push(b)) == dotted_text(octets) + seq!['.'] + text::decimal_of(b as nat),
        colon_text(seq![g]) == hexadecimal_of(g as nat),
        colon_text(groups.push(g)) == colon_text(groups) + seq![':'] + hexadecimal_of(g as nat),
{
    assert(octets.push(b).drop_last() =~= octets);
    assert(octets.push(b).last() == b);
    assert(groups.push(g).drop_last() =~= groups);
    assert(groups.push(g).last() == g);
    assert(dotted_text(octets.push(b)) =~= dotted_text(octets) + seq!['.'] + text::decimal_of(
        b as nat,
    ));
    assert(colon_text(groups.push(g)) =~= colon_text(groups) + seq![':'] + hexadecimal_of(g as nat));
}

/// A hexadecimal number grows by one digit, which is the last of the number.
pub proof fn law_hexadecimal_digits_stand_in_order(n: nat, d: nat)
    requires
        d < 16,
    ensures
        hexadecimal_of(d) == seq![text::digit_char(d as int)],
        n > 0 ==> hexadecimal_of(16 * n + d) == hexadecimal_of(n).push(text::digit_char(d as int)),
{
    assert((16 * n + d) / 16 == n);
    assert((16 * n + d) % 16 == d);
}

/// Groups are two octets each, the first the more significant.
pub proof fn law_groups_are_two_octets(octets: Seq<u8>, i: int)
    requires
        octets.len() == 16,
        0 <= i < 8,
    ensures
        groups_of(octets).len() == 8,
        groups_of(octets)[i] == 256 * octets[2 * i] + octets[2 * i + 1],
{
}

/// An address with nothing but zeros before its last group is written as a double colon and that
/// group; one without two zero groups in a row is written out in full, and one that stands for an
/// IPv4 address keeps its dots.
pub proof fn law_zeros_are_left_out(octets: Seq<u8>)
    requires
        octets.len() == 16,
    ensures
        (forall|i: int| 0 <= i < 7 ==> #[trigger] groups_of(octets)[i] == 0) && groups_of(octets)[7]
            != 0 ==> ipv6_text(octets) == "::"@ + hexadecimal_of(groups_of(octets)[7] as nat),
        (forall|i: int|
            0 <= i < 7 ==> #[trigger] groups_of(octets)[i] != 0 || groups_of(octets)[i + 1] != 0)
            ==> ipv6_text(octets) == colon_text(groups_of(octets)),
        (forall|i: int| 0 <= i < 5 ==> #[trigger] groups_of(octets)[i] == 0) && groups_of(octets)[5]
            == 0xFFFF ==> ipv6_text(octets) == "::ffff:"@ + dotted_text(octets.subrange(12, 16)),
{
    let g = groups_of(octets);
    let at = longest_zeros(g, 8);
    law_longest_zeros_is_longest(g, 8);
    reveal_with_fuel(zeros_from, 9);
    if (forall|i: int| 0 <= i < 5 ==> #[trigger] g[i] == 0) && g[5] == 0xFFFF {
        assert(g.take(5) =~= seq![0int, 0, 0, 0, 0]);
    }
    if (forall|i: int| 0 <= i < 7 ==> #[trigger] g[i] == 0) && g[7] != 0 {
        assert(g[5] == 0);
        assert(!is_mapped(g));
        assert(g[0] == 0 && g[1] == 0 && g[2] == 0 && g[3] == 0 && g[4] == 0 && g[6] == 0);
        assert(zeros_from(g, 7) == 0);
        assert(zeros_from(g, 6) == 1);
        assert(zeros_from(g, 5) == 2);
        assert(zeros_from(g, 4) == 3);
        assert(zeros_from(g, 3) == 4);
        assert(zeros_from(g, 2) == 5);
        assert(zeros_from(g, 1) == 6);
        assert(zeros_from(g, 0) == 7);
        assert(at == 0);
        assert(g.take(0) =~= Seq::empty());
        assert(colon_text(g.take(0)) =~= Seq::empty());
        assert(g.skip(7) =~= seq![g[7]]);
        assert(ipv6_text(octets) =~= "::"@ + hexadecimal_of(g[7] as nat));
    }
    if forall|i: int| 0 <= i < 7 ==> #[trigger] g[i] != 0 || g[i + 1] != 0 {
        assert(g[0] != 0 || g[1] != 0);
        assert(!is_mapped(g)) by {
            if is_mapped(g) {
                assert(g.take(5)[0] == g[0] && g.take(5)[1] == g[1]);
            }
        }
        assert(zeros_from(g, at) <= 1) by {
            if at < 7 {
                assert(g[at] != 0 || g[at + 1] != 0);
            }
        }
    }
}

} // verus!
