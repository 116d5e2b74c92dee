//! Lists of texts, in order and without repeats.

use crate::utils::text::{chars_of, same};
use vstd::prelude::*;

verus! {

/// What a list of strings says.
pub open spec fn texts(list: Seq<String>) -> Seq<Seq<char>> {
    list.map_values(|s: String| s@)
}

/// Whether `a` comes before `b`: at the first place where they differ `a` has the smaller
/// character or has ended.
pub open spec fn before(a: Seq<char>, b: Seq<char>) -> bool
    decreases a.len(),
{
    if b.len() == 0 {
        false
    } else if a.len() == 0 {
        true
    } else if a[0] != b[0] {
        a[0] < b[0]
    } else {
        before(a.drop_first(), b.drop_first())
    }
}

/// Whether each text comes before all that stand behind it.
pub open spec fn ascending(list: Seq<Seq<char>>) -> bool {
    forall|i: int, j: int|
        #![trigger list[i], list[j]]
        0 <= i < j < list.len() ==> before(list[i], list[j])
}

/// Texts are ordered by `before`: none comes before itself, of two different ones exactly
/// one comes first, and the order carries over.
pub proof fn law_texts_are_ordered(a: Seq<char>, b: Seq<char>, c: Seq<char>)
    ensures
        !before(a, a),
        a != b ==> before(a, b) != before(b, a),
        before(a, b) && before(b, c) ==> before(a, c),
{
    lemma_not_before_itself(a);
    if a != b {
        lemma_connected(a, b);
    }
    lemma_carries_over(a, b, c);
}

proof fn lemma_not_before_itself(a: Seq<char>)
    ensures
        !before(a, a),
    decreases a.len(),
{
    if a.len() > 0 {
        lemma_not_before_itself(a.drop_first());
    }
}

proof fn lemma_connected(a: Seq<char>, b: Seq<char>)
    requires
        a != b,
    ensures
        before(a, b) != before(b, a),
    decreases a.len(),
{
    if a.len() > 0 && b.len() > 0 {
        if a[0] == b[0] {
            if a.drop_first() == b.drop_first() {
                assert(a =~= seq![a[0]] + a.drop_first());
                assert(b =~= seq![b[0]] + b.drop_first());
            }
            lemma_connected(a.drop_first(), b.drop_first());
        }
    } else if a.len() == 0 && b.len() == 0 {
        assert(a =~= b);
    }
}

proof fn lemma_carries_over(a: Seq<char>, b: Seq<char>, c: Seq<char>)
    ensures
        before(a, b) && before(b, c) ==> before(a, c),
    decreases a.len(),
{
    if a.len() > 0 && b.len() > 0 && c.len() > 0 && a[0] == b[0] && b[0] == c[0] {
        lemma_carries_over(a.drop_first(), b.drop_first(), c.drop_first());
    }
}

/// Two ascending lists with the same texts are the same list.
pub proof fn law_ascending_list_is_unique(a: Seq<Seq<char>>, b: Seq<Seq<char>>)
    requires
        ascending(a),
        ascending(b),
        a.to_set() == b.to_set(),
    ensures
        a == b,
    decreases a.len(),
{
    if a.len() == 0 {
        if b.len() > 0 {
            assert(b.to_set().contains(b[0]));
            assert(a.contains(b[0]));
        }
        assert(a =~= b);
    } else {
        let x = a.last();
        assert(a.to_set().contains(x));
        assert(b.contains(x));
        let y = b.last();
        assert(b.to_set().contains(y));
        assert(a.contains(y));
        if x != y {
            let i = choose|i: int| 0 <= i < a.len() && a[i] == y;
            let j = choose|j: int| 0 <= j < b.len() && b[j] == x;
            assert(before(a[i], a[a.len() - 1]));
            assert(before(b[j], b[b.len() - 1]));
            law_texts_are_ordered(x, y, x);
        }
        let p = a.drop_last();
        let q = b.drop_last();
        assert forall|t: Seq<char>| p.to_set().contains(t) == q.to_set().contains(t) by {
            if p.contains(t) {
                let i = choose|i: int| 0 <= i < p.len() && p[i] == t;
                assert(before(a[i], a[a.len() - 1]));
                law_texts_are_ordered(t, t, t);
                assert(a.contains(t));
                assert(a.to_set().contains(t));
                let j = choose|j: int| 0 <= j < b.len() && b[j] == t;
                assert(q[j] == t);
            }
            if q.contains(t) {
                let i = choose|i: int| 0 <= i < q.len() && q[i] == t;
                assert(before(b[i], b[b.len() - 1]));
                law_texts_are_ordered(t, t, t);
                assert(b.contains(t));
                assert(b.to_set().contains(t));
                let j = choose|j: int| 0 <= j < a.len() && a[j] == t;
                assert(p[j] == t);
            }
        }
        assert(p.to_set() =~= q.to_set());
        law_ascending_list_is_unique(p, q);
        assert(a =~= p.push(x));
        assert(b =~= q.push(y));
    }
}

fn chars_before(a: &Vec<char>, b: &Vec<char>, at: usize) -> (r: bool)
    requires
        at <= a@.len(),
        at <= b@.len(),
    ensures
        r == before(a@.skip(at as int), b@.skip(at as int)),
    decreases a@.len() - at,
{
    if at >= b.len() {
        return false;
    }
    if at >= a.len() {
        return true;
    }
    if a[at] != b[at] {
        return a[at] < b[at];
    }
    assert(a@.skip(at as int).drop_first() =~= a@.skip(at + 1));
    assert(b@.skip(at as int).drop_first() =~= b@.skip(at + 1));
    chars_before(a, b, at + 1)
}

/// Whether `a` comes before `b`.
pub fn comes_before(a: &str, b: &str) -> (r: bool)
    ensures
        r == before(a@, b@),
{
    let x = chars_of(a);
    let y = chars_of(b);
    assert(x@.skip(0) =~= a@);
    assert(y@.skip(0) =~= b@);
    chars_before(&x, &y, 0)
}

/// Puts a text where it belongs in an ascending list, unless it is there already.
pub fn insert_text(list: &mut Vec<String>, item: String)
    requires
        ascending(texts(old(list)@)),
    ensures
        ascending(texts(final(list)@)),
        texts(final(list)@).to_set() == texts(old(list)@).to_set().insert(item@),
{
    let ghost all = texts(list@);
    let mut at: usize = 0;
    while at < list.len() && comes_before(list[at].as_str(), item.as_str())
        invariant
            all == texts(list@),
            ascending(all),
            at <= list@.len(),
            forall|k: int| 0 <= k < at ==> before(#[trigger] all[k], item@),
        decreases list@.len() - at,
    {
        at += 1;
    }
    if at < list.len() && same(list[at].as_str(), item.as_str()) {
        proof {
            assert(all[at as int] == item@);
            assert(all.contains(item@));
            assert(all.to_set().insert(item@) =~= all.to_set());
        }
        return;
    }
    let ghost word = item@;
    list.insert(at, item);
    proof {
        let now = texts(list@);
        assert(now =~= all.insert(at as int, word));
        assert forall|i: int, j: int|
            #![trigger now[i], now[j]]
            0 <= i < j < now.len() implies before(now[i], now[j]) by {
            let p = if i < at {
                i
            } else {
                i - 1
            };
            let q = if j < at {
                j
            } else {
                j - 1
            };
            if i != at && j != at {
                assert(before(all[p], all[q]));
            } else if j == at {
                assert(before(all[i], word));
            } else {
                law_texts_are_ordered(all[at as int], word, word);
                assert(before(word, all[at as int]));
                if q != at {
                    assert(before(all[at as int], all[q]));
                    law_texts_are_ordered(word, all[at as int], all[q]);
                }
            }
        }
        assert forall|t: Seq<char>|
            now.to_set().contains(t) == all.to_set().insert(word).contains(t) by {
            if now.contains(t) {
                let i = choose|i: int| 0 <= i < now.len() && now[i] == t;
                if i < at {
                    assert(all[i] == t);
                } else if i > at {
                    assert(all[i - 1] == t);
                }
            }
            if all.contains(t) {
                let i = choose|i: int| 0 <= i < all.len() && all[i] == t;
                if i < at {
                    assert(now[i] == t);
                } else {
                    assert(now[i + 1] == t);
                }
            }
            assert(now[at as int] == word);
        }
        assert(now.to_set() =~= all.to_set().insert(word));
    }
}

/// Copies a list of strings.
pub fn copy_texts(list: &Vec<String>) -> (c: Vec<String>)
    ensures
        texts(c@) == texts(list@),
{
    let mut c: Vec<String> = Vec::new();
    let mut i: usize = 0;
    while i < list.len()
        invariant
            i <= list@.len(),
            texts(c@) == texts(list@).take(i as int),
        decreases list@.len() - i,
    {
        let ghost had = texts(c@);
        let one = list[i].clone();
        c.push(one);
        i += 1;
        assert(texts(c@) =~= had.push(one@));
        assert(texts(c@) =~= texts(list@).take(i as int));
    }
    assert(texts(list@).take(i as int) =~= texts(list@));
    c
}

} // verus!
