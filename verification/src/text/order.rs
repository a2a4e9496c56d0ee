//! The order of the dictionary on texts, and sorting by it.

use crate::text::{copy_range, texts};
use vstd::prelude::*;

verus! {

/// Whether `a` comes before `b`, or is `b`, in the order of a dictionary
/// whose alphabet is the code points: the order of Rust's strings.
pub open spec fn lex_le(a: Seq<char>, b: Seq<char>) -> bool
    decreases a.len(),
{
    if a.len() == 0 {
        true
    } else if b.len() == 0 {
        false
    } else if a[0] != b[0] {
        a[0] < b[0]
    } else {
        lex_le(a.skip(1), b.skip(1))
    }
}

/// `lex_le` as a relation.
pub open spec fn lex_order() -> spec_fn(Seq<char>, Seq<char>) -> bool {
    |a: Seq<char>, b: Seq<char>| lex_le(a, b)
}

/// Every text comes no later than itself.
pub proof fn lemma_lex_le_reflexive(a: Seq<char>)
    ensures
        lex_le(a, a),
    decreases a.len(),
{
    if a.len() > 0 {
        lemma_lex_le_reflexive(a.skip(1));
    }
}

/// Two texts of which each comes no later than the other are one text.
pub proof fn lemma_lex_le_antisymmetric(a: Seq<char>, b: Seq<char>)
    requires
        lex_le(a, b),
        lex_le(b, a),
    ensures
        a == b,
    decreases a.len(),
{
    if a.len() == 0 || b.len() == 0 {
        assert(a =~= b);
    } else {
        lemma_lex_le_antisymmetric(a.skip(1), b.skip(1));
        assert(a =~= seq![a[0]] + a.skip(1));
        assert(b =~= seq![b[0]] + b.skip(1));
    }
}

/// What comes no later than a text that comes no later than a third comes
/// no later than the third.
pub proof fn lemma_lex_le_transitive(a: Seq<char>, b: Seq<char>, c: Seq<char>)
    requires
        lex_le(a, b),
        lex_le(b, c),
    ensures
        lex_le(a, c),
    decreases a.len(),
{
    if a.len() > 0 && b.len() > 0 && c.len() > 0 && a[0] == b[0] && b[0] == c[0] {
        lemma_lex_le_transitive(a.skip(1), b.skip(1), c.skip(1));
    }
}

/// Of two texts one comes no later than the other.
pub proof fn lemma_lex_le_connected(a: Seq<char>, b: Seq<char>)
    ensures
        lex_le(a, b) || lex_le(b, a),
    decreases a.len(),
{
    if a.len() > 0 && b.len() > 0 && a[0] == b[0] {
        lemma_lex_le_connected(a.skip(1), b.skip(1));
    }
}

/// The order of the dictionary is total.
pub proof fn lemma_lex_order_total()
    ensures
        vstd::relations::total_ordering(lex_order()),
{
    let r = lex_order();
    assert forall|x: Seq<char>| #[trigger] r(x, x) by {
        lemma_lex_le_reflexive(x);
    }
    assert forall|x: Seq<char>, y: Seq<char>| #[trigger] r(x, y) && #[trigger] r(y, x) implies x
        == y by {
        lemma_lex_le_antisymmetric(x, y);
    }
    assert forall|x: Seq<char>, y: Seq<char>, z: Seq<char>| #[trigger]
        r(x, y) && #[trigger] r(y, z) implies r(x, z) by {
        lemma_lex_le_transitive(x, y, z);
    }
    assert forall|x: Seq<char>, y: Seq<char>| #[trigger] r(x, y) || #[trigger] r(y, x) by {
        lemma_lex_le_connected(x, y);
    }
}

/// Whether `a` comes before `b`, or is `b`, in the order of the dictionary.
pub fn precedes(a: &Vec<char>, b: &Vec<char>) -> (r: bool)
    ensures
        r == lex_le(a@, b@),
{
    let mut i: usize = 0;
    proof {
        assert(a@.skip(0) =~= a@);
        assert(b@.skip(0) =~= b@);
    }
    loop
        invariant
            i <= a.len(),
            i <= b.len(),
            lex_le(a@, b@) == lex_le(a@.skip(i as int), b@.skip(i as int)),
        decreases a.len() - i,
    {
        if i == a.len() {
            return true;
        }
        if i == b.len() {
            return false;
        }
        proof {
            assert(a@.skip(i as int)[0] == a@[i as int]);
            assert(b@.skip(i as int)[0] == b@[i as int]);
            assert(a@.skip(i as int).skip(1) =~= a@.skip(i + 1));
            assert(b@.skip(i as int).skip(1) =~= b@.skip(i + 1));
        }
        if a[i] != b[i] {
            return a[i] < b[i];
        }
        i = i + 1;
    }
}

/// The lines in the order of the dictionary: the one arrangement of the same
/// lines, each as often as before, in which no line comes before a smaller
/// one.
pub open spec fn sorted(lines: Seq<Seq<char>>) -> Seq<Seq<char>> {
    lines.sort_by(lex_order())
}

/// What pins `sorted` down: its result is in order and holds the same lines,
/// and nothing else does both.
pub proof fn lemma_sorted_is_the_ordered_arrangement(lines: Seq<Seq<char>>, other: Seq<Seq<char>>)
    ensures
        vstd::relations::sorted_by(sorted(lines), lex_order()),
        sorted(lines).to_multiset() == lines.to_multiset(),
        vstd::relations::sorted_by(other, lex_order()) && other.to_multiset()
            == lines.to_multiset() ==> other == sorted(lines),
{
    lemma_lex_order_total();
    lines.lemma_sort_by_ensures(lex_order());
    if vstd::relations::sorted_by(other, lex_order()) && other.to_multiset()
        == lines.to_multiset() {
        vstd::seq_lib::lemma_sorted_unique(other, sorted(lines), lex_order());
    }
}

/// The lines `v[from..to]` in the order of the dictionary.
pub fn sort_lines(v: &Vec<Vec<char>>, from: usize, to: usize) -> (r: Vec<Vec<char>>)
    requires
        from <= to <= v.len(),
    ensures
        texts(r@) == sorted(texts(v@).subrange(from as int, to as int)),
{
    let mut r: Vec<Vec<char>> = Vec::new();
    let mut i: usize = from;
    let ghost input = texts(v@).subrange(from as int, to as int);
    proof {
        assert(texts(r@) =~= Seq::empty());
        assert(input.take(0) =~= Seq::empty());
    }
    while i < to
        invariant
            from <= i <= to <= v.len(),
            input == texts(v@).subrange(from as int, to as int),
            vstd::relations::sorted_by(texts(r@), lex_order()),
            texts(r@).to_multiset() == input.take(i - from).to_multiset(),
        decreases to - i,
    {
        let item = copy_range(&v[i], 0, v[i].len());
        proof {
            assert(v@[i as int]@.subrange(0, v@[i as int]@.len() as int) =~= v@[i as int]@);
            assert(item@ == input[i - from]);
        }
        let mut p: usize = 0;
        while p < r.len() && precedes(&r[p], &item)
            invariant
                p <= r.len(),
                forall|j: int| 0 <= j < p ==> lex_le(#[trigger] r@[j]@, item@),
            decreases r.len() - p,
        {
            p = p + 1;
        }
        let ghost before = texts(r@);
        r.insert(p, item);
        proof {
            let after = texts(r@);
            assert(after =~= before.insert(p as int, item@));
            vstd::seq_lib::to_multiset_insert(before, p as int, item@);
            assert(input.take(i + 1 - from) =~= input.take(i - from).push(item@));
            vstd::seq_lib::to_multiset_build(input.take(i - from), item@);
            assert forall|a: int, b: int| 0 <= a < b < after.len() implies #[trigger] lex_order()(
                after[a],
                after[b],
            ) by {
                if b < p {
                    assert(lex_order()(before[a], before[b]));
                } else if b == p {
                    assert(after[a] == before[a]);
                } else if a == p {
                    assert(after[b] == before[b - 1]);
                    lemma_lex_le_connected(before[p as int], item@);
                    if b - 1 > p {
                        assert(lex_order()(before[p as int], before[b - 1]));
                        lemma_lex_le_transitive(item@, before[p as int], before[b - 1]);
                    }
                } else if a < p {
                    assert(after[b] == before[b - 1]);
                    assert(lex_order()(before[a], before[b - 1]));
                } else {
                    assert(after[a] == before[a - 1]);
                    assert(after[b] == before[b - 1]);
                    assert(lex_order()(before[a - 1], before[b - 1]));
                }
            }
        }
        i = i + 1;
    }
    proof {
        assert(input.take(to - from) =~= input);
        lemma_sorted_is_the_ordered_arrangement(input, texts(r@));
    }
    r
}

/// Sorting neither adds nor drops a line.
pub proof fn lemma_sorted_len(lines: Seq<Seq<char>>)
    ensures
        sorted(lines).len() == lines.len(),
{
    lemma_lex_order_total();
    lines.lemma_sort_by_ensures(lex_order());
    vstd::seq_lib::to_multiset_len(lines);
    vstd::seq_lib::to_multiset_len(sorted(lines));
}

/// What is sorted stays as it is when it is sorted again.
pub proof fn lemma_sorted_twice(lines: Seq<Seq<char>>)
    ensures
        sorted(sorted(lines)) == sorted(lines),
{
    lemma_sorted_is_the_ordered_arrangement(lines, sorted(lines));
    lemma_sorted_is_the_ordered_arrangement(sorted(lines), sorted(lines));
}

/// Sorting brings no line that was not there.
pub proof fn lemma_sorted_holds_the_same(lines: Seq<Seq<char>>, i: int)
    requires
        0 <= i < sorted(lines).len(),
    ensures
        lines.contains(sorted(lines)[i]),
{
    lemma_lex_order_total();
    lines.lemma_sort_by_ensures(lex_order());
    assert(sorted(lines).contains(sorted(lines)[i]));
}

} // verus!
