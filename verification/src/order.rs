//! The order of strings, and lists sorted by it.

use vstd::prelude::*;
use vstd::relations::{sorted_by, total_ordering};

use crate::text::{chars_of, texts};

verus! {

/// Whether `a` comes before `b`, or equals it, in the order of their characters.
pub open spec fn text_le(a: Seq<char>, b: Seq<char>) -> bool
    decreases a.len(),
{
    if a.len() == 0 {
        true
    } else if b.len() == 0 {
        false
    } else if a[0] == b[0] {
        text_le(a.drop_first(), b.drop_first())
    } else {
        a[0] < b[0]
    }
}

/// Whether `s` is sorted.
pub open spec fn sorted(s: Seq<Seq<char>>) -> bool {
    forall|i: int, j: int| 0 <= i < j < s.len() ==> text_le(#[trigger] s[i], #[trigger] s[j])
}

/// Whether `s` is sorted and holds nothing twice.
pub open spec fn strictly_sorted(s: Seq<Seq<char>>) -> bool {
    &&& sorted(s)
    &&& s.no_duplicates()
}

proof fn lemma_le_reflexive(a: Seq<char>)
    ensures
        text_le(a, a),
    decreases a.len(),
{
    if a.len() > 0 {
        lemma_le_reflexive(a.drop_first());
    }
}

proof fn lemma_le_total(a: Seq<char>, b: Seq<char>)
    ensures
        text_le(a, b) || text_le(b, a),
    decreases a.len(),
{
    if a.len() > 0 && b.len() > 0 && a[0] == b[0] {
        lemma_le_total(a.drop_first(), b.drop_first());
    }
}

proof fn lemma_le_antisymmetric(a: Seq<char>, b: Seq<char>)
    requires
        text_le(a, b),
        text_le(b, a),
    ensures
        a == b,
    decreases a.len(),
{
    if a.len() > 0 && b.len() > 0 {
        lemma_le_antisymmetric(a.drop_first(), b.drop_first());
        assert(a == seq![a[0]] + a.drop_first());
        assert(b == seq![b[0]] + b.drop_first());
    }
}

proof fn lemma_le_transitive(a: Seq<char>, b: Seq<char>, c: Seq<char>)
    requires
        text_le(a, b),
        text_le(b, c),
    ensures
        text_le(a, c),
    decreases a.len(),
{
    if a.len() > 0 && b.len() > 0 && c.len() > 0 && a[0] == b[0] && b[0] == c[0] {
        lemma_le_transitive(a.drop_first(), b.drop_first(), c.drop_first());
    }
}

/// The order of texts is total: any two texts are comparable, and two texts
/// that come before one another are the same.
pub proof fn lemma_text_order_is_total()
    ensures
        total_ordering(|a: Seq<char>, b: Seq<char>| text_le(a, b)),
{
    assert forall|a: Seq<char>| #[trigger] text_le(a, a) by {
        lemma_le_reflexive(a);
    }
    assert forall|a: Seq<char>, b: Seq<char>| #[trigger] text_le(a, b) || #[trigger] text_le(b, a) by {
        lemma_le_total(a, b);
    }
    assert forall|a: Seq<char>, b: Seq<char>| #[trigger]
        text_le(a, b) && #[trigger] text_le(b, a) implies a == b by {
        lemma_le_antisymmetric(a, b);
    }
    assert forall|a: Seq<char>, b: Seq<char>, c: Seq<char>| #[trigger]
        text_le(a, b) && #[trigger] text_le(b, c) implies text_le(a, c) by {
        lemma_le_transitive(a, b, c);
    }
}

/// Where `a` comes before `b`, and `b` does not come after `c`, `a` comes before
/// `c`.
pub proof fn lemma_le_chain(a: Seq<char>, b: Seq<char>, c: Seq<char>)
    requires
        text_le(a, b),
        a != b,
        text_le(b, c),
    ensures
        text_le(a, c),
        a != c,
{
    lemma_le_transitive(a, b, c);
    if a == c {
        lemma_le_antisymmetric(a, b);
    }
}

/// Two sorted lists of the same texts are the same list.
pub proof fn lemma_sorted_is_unique(a: Seq<Seq<char>>, b: Seq<Seq<char>>)
    requires
        sorted(a),
        sorted(b),
        a.to_multiset() == b.to_multiset(),
    ensures
        a == b,
{
    let leq = |x: Seq<char>, y: Seq<char>| text_le(x, y);
    lemma_text_order_is_total();
    assert(sorted_by(a, leq));
    assert(sorted_by(b, leq));
    vstd::seq_lib::lemma_sorted_unique(a, b, leq);
}

/// Two strictly sorted lists with the same members are the same list.
pub proof fn lemma_strictly_sorted_is_unique(a: Seq<Seq<char>>, b: Seq<Seq<char>>)
    requires
        strictly_sorted(a),
        strictly_sorted(b),
        forall|t: Seq<char>| #[trigger] a.contains(t) <==> b.contains(t),
    ensures
        a == b,
{
    a.lemma_multiset_has_no_duplicates();
    b.lemma_multiset_has_no_duplicates();
    broadcast use vstd::seq_lib::group_to_multiset_ensures;
    assert forall|t: Seq<char>| a.to_multiset().count(t) == b.to_multiset().count(t) by {
        assert(a.contains(t) <==> a.to_multiset().count(t) > 0);
        assert(b.contains(t) <==> b.to_multiset().count(t) > 0);
    }
    assert(a.to_multiset() =~= b.to_multiset());
    lemma_sorted_is_unique(a, b);
}

/// Compares two strings.
pub fn is_le(a: &str, b: &str) -> (r: bool)
    ensures
        r == text_le(a@, b@),
{
    let x = chars_of(a);
    let y = chars_of(b);
    let mut i: usize = 0;
    assert(a@.skip(0) == a@ && b@.skip(0) == b@);
    while i < x.len()
        invariant
            i <= x.len(),
            i <= y.len(),
            x@ == a@,
            y@ == b@,
            text_le(a@, b@) == text_le(a@.skip(i as int), b@.skip(i as int)),
        decreases x.len() - i,
    {
        if i == y.len() {
            return false;
        }
        if x[i] != y[i] {
            return x[i] < y[i];
        }
        assert(a@.skip(i as int).drop_first() == a@.skip(i + 1));
        assert(b@.skip(i as int).drop_first() == b@.skip(i + 1));
        i += 1;
    }
    true
}

/// Puts `t` into the sorted list `v`, behind what does not come after it.
fn insert_sorted(v: &mut Vec<String>, t: String)
    requires
        sorted(texts(old(v)@)),
    ensures
        sorted(texts(final(v)@)),
        exists|k: int|
            0 <= k <= old(v)@.len() && texts(final(v)@) == #[trigger] texts(old(v)@).insert(k, t@),
{
    let mut k: usize = 0;
    while k < v.len() && is_le(v[k].as_str(), t.as_str())
        invariant
            k <= v.len(),
            v@ == old(v)@,
            forall|j: int| 0 <= j < k ==> text_le(#[trigger] texts(v@)[j], t@),
        decreases v.len() - k,
    {
        k += 1;
    }
    let ghost before = texts(v@);
    let ghost word = t@;
    proof {
        lemma_text_order_is_total();
        if k < v.len() {
            lemma_le_total(before[k as int], word);
            assert forall|j: int| k <= j < before.len() implies text_le(word, #[trigger] before[j]) by {
                if j > k {
                    lemma_le_transitive(word, before[k as int], before[j]);
                }
            }
        }
    }
    v.insert(k, t);
    assert(texts(v@) == before.insert(k as int, word));
    assert forall|i: int, j: int| 0 <= i < j < texts(v@).len() implies text_le(
        #[trigger] texts(v@)[i],
        #[trigger] texts(v@)[j],
    ) by {
        let after = before.insert(k as int, word);
        assert(i < k ==> after[i] == before[i]);
        assert(i > k ==> after[i] == before[i - 1]);
        assert(j < k ==> after[j] == before[j]);
        assert(j > k ==> after[j] == before[j - 1]);
    }
}

/// Sorts a list of strings.
pub fn sort_texts(v: &[String]) -> (r: Vec<String>)
    ensures
        sorted(texts(r@)),
        texts(r@).to_multiset() == texts(v@).to_multiset(),
{
    broadcast use vstd::seq_lib::group_to_multiset_ensures;
    let mut r: Vec<String> = Vec::new();
    assert(texts(r@) == texts(v@).take(0));
    for i in 0..v.len()
        invariant
            sorted(texts(r@)),
            texts(r@).to_multiset() == texts(v@).take(i as int).to_multiset(),
    {
        let ghost before = texts(r@);
        insert_sorted(&mut r, v[i].clone());
        proof {
            let word = v@[i as int]@;
            let k = choose|k: int|
                0 <= k <= before.len() && texts(r@) == #[trigger] before.insert(k, word);
            vstd::seq_lib::to_multiset_insert(before, k, word);
            vstd::seq_lib::to_multiset_build(texts(v@).take(i as int), word);
            assert(texts(v@).take(i + 1) == texts(v@).take(i as int).push(word));
        }
    }
    assert(texts(v@).take(v@.len() as int) == texts(v@));
    r
}

/// Sorts a list of strings and keeps one of each.
pub fn sort_unique(v: &[String]) -> (r: Vec<String>)
    ensures
        strictly_sorted(texts(r@)),
        forall|t: Seq<char>| #[trigger] texts(r@).contains(t) <==> texts(v@).contains(t),
{
    let mut r: Vec<String> = Vec::new();
    for i in 0..v.len()
        invariant
            strictly_sorted(texts(r@)),
            forall|t: Seq<char>| #[trigger]
                texts(r@).contains(t) <==> texts(v@).take(i as int).contains(t),
    {
        let ghost before = texts(r@);
        let ghost word = v@[i as int]@;
        let ghost seen = texts(v@).take(i as int);
        let known = crate::text::contains_text(r.as_slice(), &v[i]);
        if !known {
            insert_sorted(&mut r, v[i].clone());
            proof {
                let k = choose|k: int|
                    0 <= k <= before.len() && texts(r@) == #[trigger] before.insert(k, word);
                let after = before.insert(k, word);
                assert forall|t: Seq<char>| after.contains(t) <==> before.contains(t) || t == word by {
                    if before.contains(t) {
                        let j = before.index_of(t);
                        if j < k {
                            assert(after[j] == t);
                        } else {
                            assert(after[j + 1] == t);
                        }
                    }
                    if t == word {
                        assert(after[k] == t);
                    }
                    if after.contains(t) {
                        let j = after.index_of(t);
                        if j < k {
                            assert(before[j] == t);
                        } else if j > k {
                            assert(before[j - 1] == t);
                        }
                    }
                }
                assert(after.no_duplicates()) by {
                    assert forall|a: int, b: int|
                        0 <= a < b < after.len() implies after[a] != after[b] by {
                        if a == k {
                            assert(before[b - 1] == after[b]);
                        } else if b == k {
                            assert(before[a] == after[a]);
                        }
                    }
                }
            }
        }
        proof {
            assert(texts(v@).take(i + 1) == seen.push(word));
            assert forall|t: Seq<char>| #[trigger]
                texts(r@).contains(t) <==> texts(v@).take(i + 1).contains(t) by {
                assert(seen.push(word).contains(t) <==> seen.contains(t) || t == word) by {
                    broadcast use vstd::seq_lib::group_seq_properties;
                }
            }
        }
    }
    assert(texts(v@).take(v@.len() as int) == texts(v@));
    r
}

} // verus!
