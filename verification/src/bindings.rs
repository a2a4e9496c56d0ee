//! Lists of pairs under string keys, read as mappings: a later pair replaces
//! an earlier one with the same key.

use crate::text::to_chars;
use vstd::prelude::*;

verus! {

/// The mapping that `pairs` write into `base`, one after the other: where a
/// key comes twice, the later value stays.
pub open spec fn bound<V>(base: Map<Seq<char>, V>, pairs: Seq<(Seq<char>, V)>) -> Map<
    Seq<char>,
    V,
>
    decreases pairs.len(),
{
    if pairs.len() == 0 {
        base
    } else {
        bound(base, pairs.drop_last()).insert(pairs.last().0, pairs.last().1)
    }
}

/// The mapping that `pairs` write, starting from nothing.
pub open spec fn bindings<V>(pairs: Seq<(Seq<char>, V)>) -> Map<Seq<char>, V> {
    bound(Map::empty(), pairs)
}

/// Writing `pairs` and then one more pair is writing all of them.
pub proof fn lemma_bound_push<V>(
    base: Map<Seq<char>, V>,
    pairs: Seq<(Seq<char>, V)>,
    key: Seq<char>,
    value: V,
)
    ensures
        bound(base, pairs.push((key, value))) == bound(base, pairs).insert(key, value),
{
    assert(pairs.push((key, value)).drop_last() =~= pairs);
}

/// What a key is bound to is the value of the last pair that holds it; a key
/// that no pair holds is bound as it was.
pub proof fn lemma_bound_reads_last<V>(
    base: Map<Seq<char>, V>,
    pairs: Seq<(Seq<char>, V)>,
    key: Seq<char>,
)
    ensures
        (forall|j: int| 0 <= j < pairs.len() ==> (#[trigger] pairs[j]).0 != key) ==> (bound(
            base,
            pairs,
        ).contains_key(key) == base.contains_key(key) && (base.contains_key(key) ==> bound(
            base,
            pairs,
        )[key] == base[key])),
        forall|i: int|
            0 <= i < pairs.len() && (#[trigger] pairs[i]).0 == key && (forall|j: int|
                i < j < pairs.len() ==> (#[trigger] pairs[j]).0 != key) ==> bound(
                base,
                pairs,
            ).contains_key(key) && bound(base, pairs)[key] == pairs[i].1,
    decreases pairs.len(),
{
    if pairs.len() > 0 {
        let front = pairs.drop_last();
        lemma_bound_reads_last(base, front, key);
        if pairs.last().0 != key {
            assert forall|i: int|
                0 <= i < pairs.len() && (#[trigger] pairs[i]).0 == key && (forall|j: int|
                    i < j < pairs.len() ==> (#[trigger] pairs[j]).0 != key) implies bound(
                base,
                pairs,
            ).contains_key(key) && bound(base, pairs)[key] == pairs[i].1 by {
                assert(front[i] == pairs[i]);
                assert forall|j: int| i < j < front.len() implies (#[trigger] front[j]).0
                    != key by {
                    assert(front[j] == pairs[j]);
                }
            }
            if forall|j: int| 0 <= j < pairs.len() ==> (#[trigger] pairs[j]).0 != key {
                assert forall|j: int| 0 <= j < front.len() implies (#[trigger] front[j]).0
                    != key by {
                    assert(front[j] == pairs[j]);
                }
            }
        } else {
            assert forall|i: int|
                0 <= i < pairs.len() && (#[trigger] pairs[i]).0 == key && (forall|j: int|
                    i < j < pairs.len() ==> (#[trigger] pairs[j]).0 != key) implies bound(
                base,
                pairs,
            ).contains_key(key) && bound(base, pairs)[key] == pairs[i].1 by {
                if i < pairs.len() - 1 {
                    assert(pairs[pairs.len() - 1].0 != key);
                }
            }
        }
    }
}

/// The keys that are bound are those that were bound before and those of
/// the pairs.
pub proof fn lemma_bound_domain<V>(
    base: Map<Seq<char>, V>,
    pairs: Seq<(Seq<char>, V)>,
    key: Seq<char>,
)
    ensures
        bound(base, pairs).contains_key(key) <==> base.contains_key(key) || exists|i: int|
            0 <= i < pairs.len() && (#[trigger] pairs[i]).0 == key,
    decreases pairs.len(),
{
    if pairs.len() > 0 {
        let front = pairs.drop_last();
        lemma_bound_domain(base, front, key);
        if pairs.last().0 == key {
            assert(pairs[pairs.len() - 1].0 == key);
        } else if bound(base, pairs).contains_key(key) {
            if !base.contains_key(key) {
                let i = choose|i: int| 0 <= i < front.len() && (#[trigger] front[i]).0 == key;
                assert(pairs[i] == front[i]);
            }
        } else {
            assert forall|i: int| 0 <= i < pairs.len() implies (#[trigger] pairs[i]).0 != key by {
                if i < front.len() {
                    assert(front[i] == pairs[i]);
                }
            }
        }
    }
}

/// Whether two strings hold the same text.
pub fn same_text(a: &str, b: &str) -> (r: bool)
    ensures
        r == (a@ == b@),
{
    let x = to_chars(a);
    let y = to_chars(b);
    if x.len() != y.len() {
        return false;
    }
    let mut i: usize = 0;
    while i < x.len()
        invariant
            i <= x.len() == y.len(),
            x@ == a@,
            y@ == b@,
            forall|j: int| 0 <= j < i ==> x@[j] == y@[j],
        decreases x.len() - i,
    {
        if x[i] != y[i] {
            return false;
        }
        i = i + 1;
    }
    proof {
        assert(x@ =~= y@);
    }
    true
}

/// The place of the last pair in `pairs` whose key is `key`.
pub fn lookup<T>(pairs: &Vec<(String, T)>, key: &str) -> (r: Option<usize>)
    ensures
        match r {
            Some(i) => i < pairs.len() && pairs@[i as int].0@ == key@ && forall|j: int|
                i < j < pairs.len() ==> (#[trigger] pairs@[j]).0@ != key@,
            None => forall|j: int| 0 <= j < pairs.len() ==> (#[trigger] pairs@[j]).0@ != key@,
        },
{
    let mut i: usize = pairs.len();
    while i > 0
        invariant
            i <= pairs.len(),
            forall|j: int| i <= j < pairs.len() ==> (#[trigger] pairs@[j]).0@ != key@,
        decreases i,
    {
        i = i - 1;
        if same_text(pairs[i].0.as_str(), key) {
            return Some(i);
        }
    }
    None
}

} // verus!
