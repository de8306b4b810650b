//! The catalog ordering: a stable sort by section key.
//!
//! The stable sort of a sequence by a key is the unique permutation that is
//! ordered by the key and keeps the input order of elements with equal
//! keys; `sorted_by_section_spec` computes exactly that permutation by
//! inserting elements left to right, each behind every element whose key is
//! not larger. The executable sort is the `itertools` one, trusted against
//! this specification.

use vstd::prelude::*;
use itertools::Itertools;
use crate::catalog::{CatalogItem, section_key, section_key_view};

verus! {

/// Insert `x` behind every element whose key is at most `x`'s key.
pub open spec fn stable_insert(s: Seq<CatalogItem>, x: CatalogItem) -> Seq<CatalogItem>
    decreases s.len(),
{
    if s.len() == 0 {
        seq![x]
    } else if section_key_view(s.last()@) <= section_key_view(x@) {
        s.push(x)
    } else {
        stable_insert(s.drop_last(), x).push(s.last())
    }
}

/// The stable sort of `s` by section key.
pub open spec fn sorted_by_section_spec(s: Seq<CatalogItem>) -> Seq<CatalogItem>
    decreases s.len(),
{
    if s.len() == 0 {
        Seq::empty()
    } else {
        stable_insert(sorted_by_section_spec(s.drop_last()), s.last())
    }
}

/// A sequence ordered by section key.
pub open spec fn ordered_by_section(s: Seq<CatalogItem>) -> bool {
    forall|i: int, j: int|
        0 <= i <= j < s.len() ==> section_key_view(#[trigger] s[i]@) <= section_key_view(
            #[trigger] s[j]@,
        )
}

/// Relies on `itertools::Itertools::sorted_by_key`, documented as a stable
/// sort: its result is ordered by the key and keeps the input order of
/// items with equal keys, and `lemma_stable_sort_unique` proves that any
/// sequence with those two properties is exactly
/// `sorted_by_section_spec(items)`.
#[verifier::external_body]
pub fn sorted_by_section(items: Vec<CatalogItem>) -> (r: Vec<CatalogItem>)
    ensures
        r@ == sorted_by_section_spec(items@),
{
    items.into_iter().sorted_by_key(|it| section_key(it)).collect()
}

proof fn lemma_stable_insert_len(s: Seq<CatalogItem>, x: CatalogItem)
    ensures
        stable_insert(s, x).len() == s.len() + 1,
    decreases s.len(),
{
    if s.len() == 0 {
    } else if section_key_view(s.last()@) <= section_key_view(x@) {
    } else {
        lemma_stable_insert_len(s.drop_last(), x);
    }
}

proof fn lemma_stable_insert_multiset(s: Seq<CatalogItem>, x: CatalogItem)
    ensures
        stable_insert(s, x).to_multiset() == s.to_multiset().insert(x),
    decreases s.len(),
{
    broadcast use vstd::seq_lib::group_to_multiset_ensures;

    if s.len() == 0 {
        assert(stable_insert(s, x) =~= seq![x]);
        assert(seq![x].drop_last() =~= Seq::<CatalogItem>::empty());
    } else if section_key_view(s.last()@) <= section_key_view(x@) {
    } else {
        lemma_stable_insert_multiset(s.drop_last(), x);
        assert(s.drop_last().push(s.last()) =~= s);
        assert(stable_insert(s, x).to_multiset() == stable_insert(s.drop_last(), x).to_multiset()
            .insert(s.last()));
        assert(s.to_multiset() == s.drop_last().to_multiset().insert(s.last()));
        assert(s.drop_last().to_multiset().insert(x).insert(s.last()) =~= s.drop_last()
            .to_multiset().insert(s.last()).insert(x)) by {
            broadcast use vstd::multiset::group_multiset_axioms;

        }
    }
}

proof fn lemma_stable_insert_ordered(s: Seq<CatalogItem>, x: CatalogItem)
    requires
        ordered_by_section(s),
    ensures
        ordered_by_section(stable_insert(s, x)),
    decreases s.len(),
{
    if s.len() == 0 {
    } else if section_key_view(s.last()@) <= section_key_view(x@) {
    } else {
        lemma_stable_insert_ordered(s.drop_last(), x);
        lemma_stable_insert_len(s.drop_last(), x);
        let t = stable_insert(s.drop_last(), x).push(s.last());
        assert forall|i: int, j: int| 0 <= i <= j < t.len() implies section_key_view(
            #[trigger] t[i]@,
        ) <= section_key_view(#[trigger] t[j]@) by {
            if j == t.len() - 1 && i < j {
                let u = stable_insert(s.drop_last(), x);
                assert(t[i] == u[i]);
                lemma_stable_insert_member(s.drop_last(), x, i);
            }
        }
    }
}

/// Every element of `stable_insert(s, x)` is `x` or an element of `s`, and
/// when it is an element of `s` its key is at most the key of `s.last()`
/// (used only under the recursion's branch conditions).
proof fn lemma_stable_insert_member(s: Seq<CatalogItem>, x: CatalogItem, i: int)
    requires
        ordered_by_section(s),
        0 <= i < stable_insert(s, x).len(),
    ensures
        stable_insert(s, x)[i] == x || s.contains(stable_insert(s, x)[i]),
        section_key_view(stable_insert(s, x)[i]@) <= section_key_view(x@) || s.contains(
            stable_insert(s, x)[i],
        ),
    decreases s.len(),
{
    lemma_stable_insert_len(s, x);
    if s.len() == 0 {
    } else if section_key_view(s.last()@) <= section_key_view(x@) {
        if i < s.len() {
            assert(s.contains(s[i]));
        }
    } else {
        if i == stable_insert(s, x).len() - 1 {
            assert(s.contains(s.last()));
        } else {
            lemma_stable_insert_member(s.drop_last(), x, i);
            assert(stable_insert(s, x)[i] == stable_insert(s.drop_last(), x)[i]);
            if s.drop_last().contains(stable_insert(s.drop_last(), x)[i]) {
                let k = choose|k: int|
                    0 <= k < s.drop_last().len() && s.drop_last()[k] == stable_insert(
                        s.drop_last(),
                        x,
                    )[i];
                assert(s[k] == s.drop_last()[k]);
                assert(s.contains(s[k]));
            }
        }
    }
}

/// The stable sort keeps the length of the catalog.
pub proof fn lemma_sorted_len(s: Seq<CatalogItem>)
    ensures
        sorted_by_section_spec(s).len() == s.len(),
    decreases s.len(),
{
    if s.len() > 0 {
        lemma_sorted_len(s.drop_last());
        lemma_stable_insert_len(sorted_by_section_spec(s.drop_last()), s.last());
    }
}

/// The stable sort is a permutation: it keeps the multiset of items.
pub proof fn lemma_sorted_multiset(s: Seq<CatalogItem>)
    ensures
        sorted_by_section_spec(s).to_multiset() == s.to_multiset(),
    decreases s.len(),
{
    broadcast use vstd::seq_lib::group_to_multiset_ensures;

    if s.len() == 0 {
    } else {
        lemma_sorted_multiset(s.drop_last());
        lemma_stable_insert_multiset(sorted_by_section_spec(s.drop_last()), s.last());
        assert(s.drop_last().push(s.last()) =~= s);
        assert(s.to_multiset() == s.drop_last().to_multiset().insert(s.last()));
    }
}

/// The stable sort is ordered by section key.
pub proof fn lemma_sorted_ordered(s: Seq<CatalogItem>)
    ensures
        ordered_by_section(sorted_by_section_spec(s)),
    decreases s.len(),
{
    if s.len() == 0 {
    } else {
        lemma_sorted_ordered(s.drop_last());
        lemma_stable_insert_ordered(sorted_by_section_spec(s.drop_last()), s.last());
    }
}

/// Holding exactly the items whose section key is `k`.
pub open spec fn key_is(k: i32) -> spec_fn(CatalogItem) -> bool {
    |it: CatalogItem| section_key_view(it@) == k
}

proof fn lemma_stable_insert_key_filter(s: Seq<CatalogItem>, x: CatalogItem, k: i32)
    ensures
        stable_insert(s, x).filter(key_is(k)) == if section_key_view(x@) == k {
            s.filter(key_is(k)).push(x)
        } else {
            s.filter(key_is(k))
        },
    decreases s.len(),
{
    reveal_with_fuel(Seq::<CatalogItem>::filter, 3);
    if s.len() == 0 {
        assert(seq![x].drop_last() =~= Seq::<CatalogItem>::empty());
        assert(seq![x].last() == x);
        assert(s =~= Seq::<CatalogItem>::empty());
    } else if section_key_view(s.last()@) <= section_key_view(x@) {
        assert(s.push(x).drop_last() =~= s);
        assert(s.push(x).last() == x);
    } else {
        lemma_stable_insert_key_filter(s.drop_last(), x, k);
        let t = stable_insert(s.drop_last(), x);
        assert(t.push(s.last()).drop_last() =~= t);
        assert(t.push(s.last()).last() == s.last());
        assert(s.drop_last().push(s.last()) =~= s);
        assert(s.filter(key_is(k)) == if key_is(k)(s.last()) {
            s.drop_last().filter(key_is(k)).push(s.last())
        } else {
            s.drop_last().filter(key_is(k))
        });
    }
}

/// The stable sort keeps, for every section key, the catalog's own order
/// of the items carrying that key: together with `lemma_sorted_ordered`
/// and `lemma_sorted_multiset`, exactly what a stable sort by key means.
pub proof fn lemma_sorted_stable(s: Seq<CatalogItem>, k: i32)
    ensures
        sorted_by_section_spec(s).filter(key_is(k)) == s.filter(key_is(k)),
    decreases s.len(),
{
    reveal_with_fuel(Seq::<CatalogItem>::filter, 2);
    if s.len() > 0 {
        lemma_sorted_stable(s.drop_last(), k);
        lemma_stable_insert_key_filter(sorted_by_section_spec(s.drop_last()), s.last(), k);
        assert(s.drop_last().push(s.last()) =~= s);
        assert(s.filter(key_is(k)) == if key_is(k)(s.last()) {
            s.drop_last().filter(key_is(k)).push(s.last())
        } else {
            s.drop_last().filter(key_is(k))
        });
    }
}

proof fn lemma_filter_first(s: Seq<CatalogItem>, p: spec_fn(CatalogItem) -> bool)
    requires
        s.len() > 0,
    ensures
        s.filter(p) == (if p(s[0]) {
            seq![s[0]]
        } else {
            Seq::<CatalogItem>::empty()
        }) + s.drop_first().filter(p),
{
    reveal_with_fuel(Seq::<CatalogItem>::filter, 2);
    assert(s =~= seq![s[0]] + s.drop_first());
    Seq::filter_distributes_over_add(seq![s[0]], s.drop_first(), p);
    assert(seq![s[0]].drop_last() =~= Seq::<CatalogItem>::empty());
    assert(seq![s[0]].last() == s[0]);
}

proof fn lemma_filter_all_false(s: Seq<CatalogItem>, p: spec_fn(CatalogItem) -> bool)
    requires
        forall|j: int| 0 <= j < s.len() ==> !p(#[trigger] s[j]),
    ensures
        s.filter(p).len() == 0,
    decreases s.len(),
{
    reveal(Seq::filter);
    if s.len() > 0 {
        assert(forall|j: int|
            0 <= j < s.drop_last().len() ==> #[trigger] s.drop_last()[j] == s[j]);
        lemma_filter_all_false(s.drop_last(), p);
        assert(!p(s.last()));
    }
}

proof fn lemma_ordered_filter_ext(a: Seq<CatalogItem>, b: Seq<CatalogItem>)
    requires
        ordered_by_section(a),
        ordered_by_section(b),
        forall|k: i32| #[trigger] a.filter(key_is(k)) == b.filter(key_is(k)),
    ensures
        a == b,
    decreases a.len(),
{
    reveal_with_fuel(Seq::<CatalogItem>::filter, 2);
    if a.len() == 0 && b.len() == 0 {
        assert(a =~= b);
    } else if a.len() == 0 {
        let k = section_key_view(b[0]@);
        Seq::lemma_filter_contains(b, key_is(k), 0);
        assert(a.filter(key_is(k)) == b.filter(key_is(k)));
        assert(false);
    } else if b.len() == 0 {
        let k = section_key_view(a[0]@);
        Seq::lemma_filter_contains(a, key_is(k), 0);
        assert(a.filter(key_is(k)) == b.filter(key_is(k)));
        assert(false);
    } else {
        let k0 = section_key_view(a[0]@);
        let k1 = section_key_view(b[0]@);
        lemma_filter_first(a, key_is(k0));
        lemma_filter_first(b, key_is(k0));
        lemma_filter_first(a, key_is(k1));
        lemma_filter_first(b, key_is(k1));
        assert(a.filter(key_is(k0)) == b.filter(key_is(k0)));
        assert(a.filter(key_is(k1)) == b.filter(key_is(k1)));
        // The head keys agree: each sequence holds some item of the other's
        // head key, and an ordered sequence's head key is its smallest.
        assert(k1 <= k0) by {
            assert(b.filter(key_is(k0)).len() > 0);
            if forall|j: int| 0 <= j < b.len() ==> !key_is(k0)(#[trigger] b[j]) {
                lemma_filter_all_false(b, key_is(k0));
            }
            let j = choose|j: int| 0 <= j < b.len() && key_is(k0)(#[trigger] b[j]);
            assert(section_key_view(b[0]@) <= section_key_view(b[j]@));
        }
        assert(k0 <= k1) by {
            assert(a.filter(key_is(k1)).len() > 0);
            if forall|j: int| 0 <= j < a.len() ==> !key_is(k1)(#[trigger] a[j]) {
                lemma_filter_all_false(a, key_is(k1));
            }
            let j = choose|j: int| 0 <= j < a.len() && key_is(k1)(#[trigger] a[j]);
            assert(section_key_view(a[0]@) <= section_key_view(a[j]@));
        }
        assert(k0 == k1);
        // Equal heads: both are the first item of the same k0-filter.
        assert(a[0] == b[0]) by {
            assert(a.filter(key_is(k0))[0] == a[0]);
            assert(b.filter(key_is(k0))[0] == b[0]);
        }
        // Equal tails, by induction: dropping the equal heads drops the
        // same first entry from every per-key filter.
        assert(ordered_by_section(a.drop_first())) by {
            assert(forall|i: int|
                0 <= i < a.drop_first().len() ==> #[trigger] a.drop_first()[i] == a[i + 1]);
        }
        assert(ordered_by_section(b.drop_first())) by {
            assert(forall|i: int|
                0 <= i < b.drop_first().len() ==> #[trigger] b.drop_first()[i] == b[i + 1]);
        }
        assert forall|k: i32| #[trigger] a.drop_first().filter(key_is(k)) == b.drop_first().filter(
            key_is(k),
        ) by {
            lemma_filter_first(a, key_is(k));
            lemma_filter_first(b, key_is(k));
            assert(a.filter(key_is(k)) == b.filter(key_is(k)));
            if section_key_view(a[0]@) == k {
                assert(seq![a[0]] + a.drop_first().filter(key_is(k)) == seq![b[0]]
                    + b.drop_first().filter(key_is(k)));
                assert(a.drop_first().filter(key_is(k)) =~= (seq![a[0]] + a.drop_first().filter(
                    key_is(k),
                )).drop_first());
                assert(b.drop_first().filter(key_is(k)) =~= (seq![b[0]] + b.drop_first().filter(
                    key_is(k),
                )).drop_first());
            } else {
                assert(Seq::<CatalogItem>::empty() + a.drop_first().filter(key_is(k))
                    =~= a.drop_first().filter(key_is(k)));
                assert(Seq::<CatalogItem>::empty() + b.drop_first().filter(key_is(k))
                    =~= b.drop_first().filter(key_is(k)));
            }
        }
        lemma_ordered_filter_ext(a.drop_first(), b.drop_first());
        assert(a =~= seq![a[0]] + a.drop_first());
        assert(b =~= seq![b[0]] + b.drop_first());
    }
}

/// The stable sort's specification admits one sequence only: whatever is
/// ordered by section key and keeps, for every key, the same items in the
/// same order as the catalog `s` — the two properties the executable
/// sort's documentation promises — is exactly `sorted_by_section_spec(s)`.
pub proof fn lemma_stable_sort_unique(s: Seq<CatalogItem>, t: Seq<CatalogItem>)
    requires
        ordered_by_section(t),
        forall|k: i32| #[trigger] t.filter(key_is(k)) == s.filter(key_is(k)),
    ensures
        t == sorted_by_section_spec(s),
{
    lemma_sorted_ordered(s);
    assert forall|k: i32| #[trigger] t.filter(key_is(k)) == sorted_by_section_spec(s).filter(
        key_is(k),
    ) by {
        lemma_sorted_stable(s, k);
    }
    lemma_ordered_filter_ext(t, sorted_by_section_spec(s));
}

} // verus!
