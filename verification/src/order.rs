//! The order of texts that `String`'s `Ord` gives (character by character, a prefix
//! first), and sorting a list of texts by it.
use vstd::prelude::*;
use vstd::relations::{sorted_by, total_ordering};
use vstd::seq_lib::lemma_sorted_unique;

use crate::chars::{string_seqs, to_chars};

verus! {

/// Whether `a` comes no later than `b`: the first character where they differ decides
/// by its code point, and a text comes before the longer texts it begins.
pub open spec fn text_le(a: Seq<char>, b: Seq<char>) -> bool
    decreases a.len(),
{
    if a.len() == 0 {
        true
    } else if b.len() == 0 {
        false
    } else if a[0] != b[0] {
        (a[0] as u32) < (b[0] as u32)
    } else {
        text_le(a.drop_first(), b.drop_first())
    }
}

/// [`text_le`] as a relation.
pub open spec fn text_order() -> spec_fn(Seq<char>, Seq<char>) -> bool {
    |a: Seq<char>, b: Seq<char>| text_le(a, b)
}

proof fn lemma_text_le_reflexive(a: Seq<char>)
    ensures
        text_le(a, a),
    decreases a.len(),
{
    if a.len() > 0 {
        lemma_text_le_reflexive(a.drop_first());
    }
}

proof fn lemma_text_le_antisymmetric(a: Seq<char>, b: Seq<char>)
    requires
        text_le(a, b),
        text_le(b, a),
    ensures
        a == b,
    decreases a.len(),
{
    if a.len() > 0 && b.len() > 0 {
        if a[0] != b[0] {
            vstd::utf8::char_u32_cast(a[0], a[0] as u32);
            vstd::utf8::char_u32_cast(b[0], b[0] as u32);
        }
        assert(a[0] == b[0]);
        lemma_text_le_antisymmetric(a.drop_first(), b.drop_first());
        assert(a.drop_first() == b.drop_first());
        assert(a.len() == b.len());
        assert(a =~= b) by {
            assert forall|i: int| 0 <= i < a.len() implies a[i] == b[i] by {
                if i > 0 {
                    assert(a[i] == a.drop_first()[i - 1]);
                    assert(b[i] == b.drop_first()[i - 1]);
                }
            }
        }
    }
}

proof fn lemma_text_le_transitive(a: Seq<char>, b: Seq<char>, c: Seq<char>)
    requires
        text_le(a, b),
        text_le(b, c),
    ensures
        text_le(a, c),
    decreases a.len(),
{
    if a.len() > 0 && b.len() > 0 && c.len() > 0 && a[0] == b[0] && b[0] == c[0] {
        lemma_text_le_transitive(a.drop_first(), b.drop_first(), c.drop_first());
    }
}

proof fn lemma_text_le_total(a: Seq<char>, b: Seq<char>)
    ensures
        text_le(a, b) || text_le(b, a),
    decreases a.len(),
{
    if a.len() > 0 && b.len() > 0 {
        if a[0] == b[0] {
            lemma_text_le_total(a.drop_first(), b.drop_first());
        } else {
            vstd::utf8::char_u32_cast(a[0], a[0] as u32);
            vstd::utf8::char_u32_cast(b[0], b[0] as u32);
        }
    }
}

/// The order of texts is a total order: reflexive, antisymmetric, transitive, and any
/// two texts are comparable.
pub proof fn lemma_text_order_total()
    ensures
        total_ordering(text_order()),
{
    let r = text_order();
    assert forall|x: Seq<char>| #[trigger] r(x, x) by {
        lemma_text_le_reflexive(x);
    }
    assert forall|x: Seq<char>, y: Seq<char>| #[trigger] r(x, y) && #[trigger] r(y, x) implies x
        == y by {
        lemma_text_le_antisymmetric(x, y);
    }
    assert forall|x: Seq<char>, y: Seq<char>, z: Seq<char>| #[trigger] r(x, y) && #[trigger] r(
        y,
        z,
    ) implies r(x, z) by {
        lemma_text_le_transitive(x, y, z);
    }
    assert forall|x: Seq<char>, y: Seq<char>| #[trigger] r(x, y) || #[trigger] r(y, x) by {
        lemma_text_le_total(x, y);
    }
}

/// Whether `a` comes no later than `b` (see [`text_le`]).
pub fn text_le_chars(a: &[char], b: &[char]) -> (r: bool)
    ensures
        r == text_le(a@, b@),
{
    let mut i: usize = 0;
    assert(a@.skip(0) =~= a@);
    assert(b@.skip(0) =~= b@);
    while i < a.len() && i < b.len()
        invariant
            i <= a@.len(),
            i <= b@.len(),
            text_le(a@, b@) == text_le(a@.skip(i as int), b@.skip(i as int)),
        decreases a@.len() - i,
    {
        if a[i] != b[i] {
            return (a[i] as u32) < (b[i] as u32);
        }
        assert(a@.skip(i as int).drop_first() =~= a@.skip(i + 1));
        assert(b@.skip(i as int).drop_first() =~= b@.skip(i + 1));
        i += 1;
    }
    i == a.len()
}

/// The texts sorted into ascending order: the result is the sorting of `items` by
/// [`text_le`], the same texts, each as often as in `items`.
pub fn sorted_texts(items: &[String]) -> (r: Vec<String>)
    ensures
        string_seqs(r@) == string_seqs(items@).sort_by(text_order()),
        r@.len() == items@.len(),
{
    let leq = Ghost(text_order());
    proof {
        lemma_text_order_total();
    }
    let mut r: Vec<String> = Vec::new();
    let mut k: usize = 0;
    assert(items@.take(0) =~= Seq::<String>::empty());
    assert(string_seqs(r@) =~= Seq::<Seq<char>>::empty());
    while k < items.len()
        invariant
            k <= items@.len(),
            leq@ == text_order(),
            total_ordering(leq@),
            sorted_by(string_seqs(r@), leq@),
            string_seqs(r@).to_multiset() == string_seqs(items@.take(k as int)).to_multiset(),
        decreases items@.len() - k,
    {
        let s = items[k].clone();
        assert(s@ == items@[k as int]@);
        let sc = to_chars(s.as_str());
        let ghost old_r = string_seqs(r@);
        let mut p: usize = 0;
        while p < r.len()
            invariant
                p <= r@.len(),
                old_r == string_seqs(r@),
                sc@ == s@,
                forall|j: int| 0 <= j < p ==> text_le(#[trigger] old_r[j], s@),
            ensures
                p <= r@.len(),
                forall|j: int| 0 <= j < p ==> text_le(#[trigger] old_r[j], s@),
                p < r@.len() ==> !text_le(old_r[p as int], s@),
            decreases r@.len() - p,
        {
            if !text_le_chars(&to_chars(r[p].as_str()), &sc) {
                break;
            }
            p += 1;
        }
        proof {
            if p < old_r.len() {
                assert(!text_le(old_r[p as int], s@));
                lemma_text_le_total(old_r[p as int], s@);
            }
        }
        r.insert(p, s);
        let ghost new_r = string_seqs(r@);
        assert(new_r =~= old_r.insert(p as int, s@));
        assert(items@.take(k + 1) =~= items@.take(k as int).push(items@[k as int]));
        assert(string_seqs(items@.take(k + 1)) =~= string_seqs(items@.take(k as int)).push(
            items@[k as int]@,
        ));
        proof {
            vstd::seq_lib::to_multiset_insert(old_r, p as int, s@);
            vstd::seq_lib::to_multiset_build(string_seqs(items@.take(k as int)), s@);
        }
        assert(string_seqs(items@.take(k as int)).push(s@).to_multiset() == string_seqs(
            items@.take(k as int),
        ).to_multiset().insert(s@));
        assert(string_seqs(items@.take(k + 1)).to_multiset() == string_seqs(
            items@.take(k as int),
        ).to_multiset().insert(s@));
        assert forall|i: int, j: int| 0 <= i < j < new_r.len() implies #[trigger] leq@(
            new_r[i],
            new_r[j],
        ) by {
            if j < p {
                assert(new_r[i] == old_r[i] && new_r[j] == old_r[j]);
            } else if j == p {
                assert(new_r[i] == old_r[i]);
            } else if i == p {
                assert(new_r[j] == old_r[j - 1]);
                if j - 1 > p {
                    assert(leq@(old_r[p as int], old_r[j - 1]));
                    lemma_text_le_transitive(s@, old_r[p as int], old_r[j - 1]);
                }
            } else if i < p {
                assert(new_r[i] == old_r[i] && new_r[j] == old_r[j - 1]);
            } else {
                assert(new_r[i] == old_r[i - 1] && new_r[j] == old_r[j - 1]);
            }
        }
        k += 1;
    }
    proof {
        assert(items@.take(k as int) =~= items@);
        let sorted = string_seqs(items@).sort_by(leq@);
        string_seqs(items@).lemma_sort_by_ensures(leq@);
        lemma_sorted_unique(string_seqs(r@), sorted, leq@);
        vstd::seq_lib::to_multiset_len(string_seqs(r@));
        vstd::seq_lib::to_multiset_len(string_seqs(items@));
    }
    r
}

} // verus!
