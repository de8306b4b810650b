//! The PLU allocator: assigning and repairing price look-up codes.
//!
//! Internal items (an `(I)` name prefix) own the code range 1 through 999;
//! every other item owns 1000 through 65535. The allocator walks the catalog
//! in order, seeds a used-set from every code already stored, keeps a stored
//! code only when it is parseable, in its item's range and not yet claimed
//! this pass, and otherwise assigns the first free code at or above the
//! category's probe floor (1 for internal items, 1001 for the rest).
//!
//! The whole pass is specified by `alloc_result`; the proofs at the end of
//! the module state the allocator's laws: corrections land in the right
//! range and collide with nothing, the corrected catalog carries pairwise
//! distinct codes, and re-running the allocator on its own corrected output
//! produces no further corrections.

use vstd::prelude::*;
use std::collections::HashSet;
use crate::catalog::{
    CatalogItem, ItemView, is_internal, is_internal_view, item_plu, plu_of, views_of,
};
use crate::digits::dec_digits;
use crate::pos::PLUAssignment;

verus! {

broadcast use vstd::std_specs::hash::group_hash_axioms;

/// The allocator found every code of a category taken: the defensive error
/// path for a condition the sixteen-bit code space makes all but impossible.
#[derive(Debug, PartialEq, Eq, Structural)]
pub struct AllocationError;

/// The lowest code an item of the given category may carry.
pub open spec fn plu_floor(internal: bool) -> u16 {
    if internal {
        1
    } else {
        1000
    }
}

/// Where probing for a fresh code starts: newly assigned standard codes
/// begin above 1000, though a stored 1000 is accepted.
pub open spec fn probe_floor(internal: bool) -> u16 {
    if internal {
        1
    } else {
        1001
    }
}

/// The highest code an item of the given category may carry.
pub open spec fn plu_ceil(internal: bool) -> u16 {
    if internal {
        999
    } else {
        65535
    }
}

/// Whether a code lies in the range its item's category dictates.
pub open spec fn in_range(internal: bool, v: u16) -> bool {
    plu_floor(internal) <= v && v <= plu_ceil(internal)
}

/// Whether a stored code is invalid for its item: outside the category's
/// range, re-derived from the name on every pass.
pub fn wrong_range(item: &CatalogItem, plu: u16) -> (b: bool)
    ensures
        b == !in_range(is_internal_view(item@), plu),
{
    if is_internal(item) {
        !(1 <= plu && plu <= 999)
    } else {
        !(plu >= 1000)
    }
}

/// The smallest value in `[v, hi]` not yet in `used`.
pub open spec fn first_free_from(used: Set<u16>, v: u16, hi: u16) -> Option<u16>
    decreases hi - v,
    when v <= hi
{
    if !used.contains(v) {
        Some(v)
    } else if v == hi {
        None
    } else {
        first_free_from(used, (v + 1) as u16, hi)
    }
}

/// Every code the catalog already carries in parseable form.
pub open spec fn seed_used(items: Seq<ItemView>) -> Set<u16>
    decreases items.len(),
{
    if items.len() == 0 {
        Set::empty()
    } else {
        match plu_of(items.last()) {
            Some(p) => seed_used(items.drop_last()).insert(p),
            None => seed_used(items.drop_last()),
        }
    }
}

/// One allocator pass from item `i` on: `used` holds every code that may no
/// longer be assigned, `seen` every code already claimed this pass. Yields
/// the corrections as `(item index, new code)` pairs, or nothing when a
/// category's code space is exhausted.
pub open spec fn alloc_walk(items: Seq<ItemView>, i: int, used: Set<u16>, seen: Set<u16>) -> Option<
    Seq<(int, u16)>,
>
    decreases items.len() - i,
    when 0 <= i <= items.len()
{
    if i >= items.len() {
        Some(Seq::empty())
    } else {
        let internal = is_internal_view(items[i]);
        let keep = match plu_of(items[i]) {
            Some(p) => !seen.contains(p) && in_range(internal, p),
            None => false,
        };
        if keep {
            alloc_walk(items, i + 1, used, seen.insert(plu_of(items[i])->0))
        } else {
            match first_free_from(used, probe_floor(internal), plu_ceil(internal)) {
                Some(v) => match alloc_walk(items, i + 1, used.insert(v), seen.insert(v)) {
                    Some(rest) => Some(seq![(i, v)] + rest),
                    None => None,
                },
                None => None,
            }
        }
    }
}

/// The allocator's result on a catalog: the corrections of one full pass.
pub open spec fn alloc_result(items: Seq<ItemView>) -> Option<Seq<(int, u16)>> {
    alloc_walk(items, 0, seed_used(items), Set::empty())
}

/// The correction an allocator pass gives item `j`, if any: the first entry
/// for that index.
pub open spec fn asg_find(asg: Seq<(int, u16)>, j: int) -> Option<u16>
    decreases asg.len(),
{
    if asg.len() == 0 {
        None
    } else if asg[0].0 == j {
        Some(asg[0].1)
    } else {
        asg_find(asg.drop_first(), j)
    }
}

/// The code item `j` carries once the corrections are applied: its
/// correction where one was produced, its stored code otherwise.
pub open spec fn final_of(items: Seq<ItemView>, asg: Seq<(int, u16)>, j: int) -> Option<u16> {
    match asg_find(asg, j) {
        Some(v) => Some(v),
        None => plu_of(items[j]),
    }
}

/// The catalog after the corrections are applied: each corrected item's
/// stored code becomes the decimal rendering of its new value; nothing else
/// changes.
pub open spec fn corrected_items(items: Seq<ItemView>, asg: Seq<(int, u16)>) -> Seq<ItemView> {
    Seq::new(
        items.len(),
        |j: int|
            match asg_find(asg, j) {
                Some(v) => ItemView {
                    upc: items[j].upc,
                    description: items[j].description,
                    second_description: items[j].second_description,
                    price_cents: items[j].price_cents,
                    department_id: items[j].department_id,
                    section_id: items[j].section_id,
                    plu: Some(dec_digits(v as nat)),
                    deleted: items[j].deleted,
                    scale: items[j].scale,
                },
                None => items[j],
            },
    )
}

/// The executable corrections agree with the specified pass: entry for
/// entry, the new code and the UPC of the corrected item.
pub open spec fn assignments_match(
    items: Seq<ItemView>,
    asg: Seq<(int, u16)>,
    out: Seq<PLUAssignment>,
) -> bool {
    &&& out.len() == asg.len()
    &&& forall|k: int|
        0 <= k < asg.len() ==> (#[trigger] out[k]).plu == asg[k].1 && out[k].upc@ == items[asg[k].0].upc
}

proof fn lemma_first_free_props(used: Set<u16>, v: u16, hi: u16)
    requires
        v <= hi,
    ensures
        first_free_from(used, v, hi) matches Some(w) ==> v <= w <= hi && !used.contains(w),
    decreases hi - v,
{
    if used.contains(v) && v < hi {
        lemma_first_free_props(used, (v + 1) as u16, hi);
    }
}

proof fn lemma_seed_used_push(items: Seq<ItemView>, it: ItemView)
    ensures
        seed_used(items.push(it)) == match plu_of(it) {
            Some(p) => seed_used(items).insert(p),
            None => seed_used(items),
        },
{
    assert(items.push(it).drop_last() =~= items);
    assert(items.push(it).last() == it);
}

/// The smallest free code at or above the probe floor of `item`'s category,
/// claimed in `used` before returning; nothing when the category's space is
/// exhausted, in which case `used` is unchanged.
pub fn next_plu(used: &mut HashSet<u16>, item: &CatalogItem) -> (r: Option<u16>)
    ensures
        ({
            let internal = is_internal_view(item@);
            match first_free_from(old(used)@, probe_floor(internal), plu_ceil(internal)) {
                Some(v) => r == Some(v) && final(used)@ == old(used)@.insert(v),
                None => r is None && final(used)@ == old(used)@,
            }
        }),
{
    let internal = is_internal(item);
    let lo: u16 = if internal {
        1
    } else {
        1001
    };
    let hi: u16 = if internal {
        999
    } else {
        65535
    };
    let mut probe: u16 = lo;
    while used.contains(&probe)
        invariant
            lo == probe_floor(is_internal_view(item@)),
            hi == plu_ceil(is_internal_view(item@)),
            lo <= probe <= hi,
            used@ == old(used)@,
            first_free_from(used@, lo, hi) == first_free_from(used@, probe, hi),
        decreases hi - probe,
    {
        if probe == hi {
            return None;
        }
        probe = probe + 1;
    }
    used.insert(probe);
    Some(probe)
}

/// One allocator pass over a catalog, per `alloc_result`.
///
/// Returns the corrections in walk order together with the seeded used-set
/// (the codes the catalog already carried); the error is the defensive
/// exhaustion path. An item with no stored code, an unparseable one, a
/// duplicate or one outside its category's range is corrected; every other
/// item keeps its code.
pub fn allocate(items: &Vec<CatalogItem>) -> (r: Result<
    (Vec<PLUAssignment>, HashSet<u16>),
    AllocationError,
>)
    ensures
        match r {
            Ok((out, prev)) => {
                &&& prev@ == seed_used(views_of(items@))
                &&& alloc_result(views_of(items@)) matches Some(asg) && assignments_match(
                    views_of(items@),
                    asg,
                    out@,
                )
            },
            Err(_) => alloc_result(views_of(items@)) is None,
        },
{
    let ghost vs = views_of(items@);
    let n: usize = items.len();
    assert(vs.len() == n);

    let mut used: HashSet<u16> = HashSet::new();
    let mut prev: HashSet<u16> = HashSet::new();
    let mut i: usize = 0;
    while i < n
        invariant
            0 <= i <= n,
            n == items@.len(),
            vs == views_of(items@),
            used@ == seed_used(vs.subrange(0, i as int)),
            prev@ == used@,
        decreases n - i,
    {
        assert(vs[i as int] == items@[i as int]@);
        proof {
            assert(vs.subrange(0, i + 1) =~= vs.subrange(0, i as int).push(vs[i as int]));
            lemma_seed_used_push(vs.subrange(0, i as int), vs[i as int]);
        }
        match item_plu(&items[i]) {
            Some(p) => {
                used.insert(p);
                prev.insert(p);
            },
            None => {},
        }
        i = i + 1;
    }
    assert(vs.subrange(0, n as int) =~= vs);

    let mut out: Vec<PLUAssignment> = Vec::new();
    let ghost mut out_asg: Seq<(int, u16)> = Seq::empty();
    let mut seen: HashSet<u16> = HashSet::new();
    let mut i: usize = 0;
    while i < n
        invariant
            0 <= i <= n,
            n == items@.len(),
            vs == views_of(items@),
            prev@ == seed_used(vs),
            assignments_match(vs, out_asg, out@),
            match alloc_walk(vs, i as int, used@, seen@) {
                Some(rest) => alloc_result(vs) == Some(out_asg + rest),
                None => alloc_result(vs) is None,
            },
        decreases n - i,
    {
        assert(vs[i as int] == items@[i as int]@);
        let it = &items[i];
        let ghost used0 = used@;
        let ghost seen0 = seen@;
        let mut keep: bool = false;
        let mut kept_code: u16 = 0;
        match item_plu(it) {
            Some(p) => {
                if !seen.contains(&p) && !wrong_range(it, p) {
                    keep = true;
                    kept_code = p;
                }
            },
            None => {},
        }
        if keep {
            seen.insert(kept_code);
            proof {
                assert(alloc_walk(vs, i as int, used0, seen0) == alloc_walk(
                    vs,
                    i + 1,
                    used@,
                    seen@,
                ));
            }
        } else {
            match next_plu(&mut used, it) {
                Some(v) => {
                    seen.insert(v);
                    let assignment = PLUAssignment { upc: it.upc.clone(), plu: v };
                    out.push(assignment);
                    proof {
                        let ghost internal = is_internal_view(vs[i as int]);
                        assert(first_free_from(used0, probe_floor(internal), plu_ceil(internal))
                            == Some(v));
                        assert(used@ == used0.insert(v));
                        assert(seen@ == seen0.insert(v));
                        let w1 = alloc_walk(vs, i as int, used0, seen0);
                        match alloc_walk(vs, i + 1, used@, seen@) {
                            Some(rest) => {
                                assert(w1 == Some(seq![(i as int, v)] + rest));
                                assert(out_asg.push((i as int, v)) + rest =~= out_asg + (seq![
                                    (i as int, v),
                                ] + rest));
                            },
                            None => {
                                assert(w1 is None);
                            },
                        }
                        out_asg = out_asg.push((i as int, v));
                    }
                },
                None => {
                    proof {
                        let ghost internal = is_internal_view(vs[i as int]);
                        assert(first_free_from(used0, probe_floor(internal), plu_ceil(internal))
                            is None);
                        assert(alloc_walk(vs, i as int, used0, seen0) is None);
                    }
                    return Err(AllocationError);
                },
            }
        }
        i = i + 1;
    }
    assert(alloc_walk(vs, n as int, used@, seen@) == Some(Seq::<(int, u16)>::empty()));
    assert(out_asg + Seq::<(int, u16)>::empty() =~= out_asg);
    Ok((out, prev))
}

proof fn lemma_asg_find_absent(asg: Seq<(int, u16)>, j: int)
    requires
        forall|k: int| 0 <= k < asg.len() ==> (#[trigger] asg[k]).0 != j,
    ensures
        asg_find(asg, j) is None,
    decreases asg.len(),
{
    if asg.len() > 0 {
        assert(forall|k: int|
            0 <= k < asg.drop_first().len() ==> (#[trigger] asg.drop_first()[k]).0 == asg[k + 1].0
                && asg[k + 1].0 != j);
        lemma_asg_find_absent(asg.drop_first(), j);
    }
}

proof fn lemma_asg_find_present(asg: Seq<(int, u16)>, j: int)
    requires
        asg_find(asg, j) is Some,
    ensures
        exists|k: int|
            0 <= k < asg.len() && (#[trigger] asg[k]).0 == j && asg[k].1 == asg_find(asg, j)->0,
    decreases asg.len(),
{
    if asg.len() > 0 {
        if asg[0].0 == j {
            assert(asg[0].0 == j && asg[0].1 == asg_find(asg, j)->0);
        } else {
            lemma_asg_find_present(asg.drop_first(), j);
            let k = choose|k: int|
                0 <= k < asg.drop_first().len() && (#[trigger] asg.drop_first()[k]).0 == j
                    && asg.drop_first()[k].1 == asg_find(asg.drop_first(), j)->0;
            assert(asg[k + 1] == asg.drop_first()[k]);
        }
    }
}

proof fn lemma_asg_find_cons(a: (int, u16), rest: Seq<(int, u16)>, j: int)
    ensures
        asg_find(seq![a] + rest, j) == if j == a.0 {
            Some(a.1)
        } else {
            asg_find(rest, j)
        },
{
    let asg = seq![a] + rest;
    assert(asg[0] == a);
    assert(asg.drop_first() =~= rest);
}

/// What one allocator pass from item `i` guarantees of its corrections
/// `asg`: indices in order and in bounds, every new code in its item's
/// range, free of `used` and pairwise distinct; every uncorrected item kept
/// a parseable, in-range code unclaimed at entry; and the resulting codes of
/// any two items differ.
spec fn walk_post(
    items: Seq<ItemView>,
    i: int,
    used: Set<u16>,
    seen: Set<u16>,
    asg: Seq<(int, u16)>,
) -> bool {
    &&& (forall|k: int| 0 <= k < asg.len() ==> i <= (#[trigger] asg[k]).0 < items.len())
    &&& (forall|k1: int, k2: int|
        0 <= k1 < k2 < asg.len() ==> (#[trigger] asg[k1]).0 < (#[trigger] asg[k2]).0)
    &&& (forall|k: int|
        0 <= k < asg.len() ==> in_range(
            is_internal_view(items[(#[trigger] asg[k]).0]),
            asg[k].1,
        ))
    &&& (forall|k: int| 0 <= k < asg.len() ==> !used.contains((#[trigger] asg[k]).1))
    &&& (forall|k1: int, k2: int|
        0 <= k1 < k2 < asg.len() ==> (#[trigger] asg[k1]).1 != (#[trigger] asg[k2]).1)
    &&& (forall|j: int|
        i <= j < items.len() && #[trigger] asg_find(asg, j) is None ==> match plu_of(items[j]) {
            Some(p) => !seen.contains(p) && in_range(is_internal_view(items[j]), p),
            None => false,
        })
    &&& (forall|j1: int, j2: int|
        i <= j1 < j2 < items.len() ==> #[trigger] final_of(items, asg, j1) != #[trigger] final_of(
            items,
            asg,
            j2,
        ))
}

proof fn lemma_walk_props(items: Seq<ItemView>, i: int, used: Set<u16>, seen: Set<u16>)
    requires
        0 <= i <= items.len(),
        forall|j: int|
            i <= j < items.len() ==> match plu_of(#[trigger] items[j]) {
                Some(p) => used.contains(p),
                None => true,
            },
        alloc_walk(items, i, used, seen) is Some,
    ensures
        walk_post(items, i, used, seen, alloc_walk(items, i, used, seen)->0),
    decreases items.len() - i,
{
    if i >= items.len() {
        let asg = alloc_walk(items, i, used, seen)->0;
        assert(asg.len() == 0);
    } else {
        let internal = is_internal_view(items[i]);
        let keep = match plu_of(items[i]) {
            Some(p) => !seen.contains(p) && in_range(internal, p),
            None => false,
        };
        if keep {
            let p = plu_of(items[i])->0;
            lemma_walk_props(items, i + 1, used, seen.insert(p));
            let asg = alloc_walk(items, i + 1, used, seen.insert(p))->0;
            assert(alloc_walk(items, i, used, seen)->0 == asg);
            assert(used.contains(p));
            assert forall|j: int|
                i <= j < items.len() && #[trigger] asg_find(asg, j) is None implies match plu_of(
                items[j],
            ) {
                Some(q) => !seen.contains(q) && in_range(is_internal_view(items[j]), q),
                None => false,
            } by {
                if j == i {
                    assert(forall|k: int| 0 <= k < asg.len() ==> (#[trigger] asg[k]).0 != i);
                } else {
                    assert(plu_of(items[j]) is Some);
                    let q = plu_of(items[j])->0;
                    assert(!seen.insert(p).contains(q));
                }
            }
            assert forall|j1: int, j2: int| i <= j1 < j2 < items.len() implies #[trigger] final_of(
                items,
                asg,
                j1,
            ) != #[trigger] final_of(items, asg, j2) by {
                if j1 == i {
                    assert(forall|k: int| 0 <= k < asg.len() ==> (#[trigger] asg[k]).0 != i);
                    lemma_asg_find_absent(asg, i);
                    assert(final_of(items, asg, i) == Some(p));
                    match asg_find(asg, j2) {
                        Some(w) => {
                            lemma_asg_find_present(asg, j2);
                            let k = choose|k: int|
                                0 <= k < asg.len() && (#[trigger] asg[k]).0 == j2 && asg[k].1 == w;
                            assert(!used.contains(w));
                        },
                        None => {
                            assert(!seen.insert(p).contains(plu_of(items[j2])->0));
                        },
                    }
                }
            }
        } else {
            let ff = first_free_from(used, probe_floor(internal), plu_ceil(internal));
            assert(ff is Some);
            let v = ff->0;
            lemma_first_free_props(used, probe_floor(internal), plu_ceil(internal));
            lemma_walk_props(items, i + 1, used.insert(v), seen.insert(v));
            let rest = alloc_walk(items, i + 1, used.insert(v), seen.insert(v))->0;
            let asg = seq![(i, v)] + rest;
            assert(alloc_walk(items, i, used, seen)->0 == asg);
            assert(asg[0] == (i, v));
            assert(forall|k: int| 1 <= k < asg.len() ==> (#[trigger] asg[k]) == rest[k - 1]);
            assert(in_range(internal, v));
            assert forall|j: int|
                i <= j < items.len() && #[trigger] asg_find(asg, j) is None implies match plu_of(
                items[j],
            ) {
                Some(q) => !seen.contains(q) && in_range(is_internal_view(items[j]), q),
                None => false,
            } by {
                lemma_asg_find_cons((i, v), rest, j);
                if j != i {
                    assert(asg_find(rest, j) is None);
                    assert(plu_of(items[j]) is Some);
                    assert(!seen.insert(v).contains(plu_of(items[j])->0));
                }
            }
            assert forall|j1: int, j2: int| i <= j1 < j2 < items.len() implies #[trigger] final_of(
                items,
                asg,
                j1,
            ) != #[trigger] final_of(items, asg, j2) by {
                lemma_asg_find_cons((i, v), rest, j1);
                lemma_asg_find_cons((i, v), rest, j2);
                if j1 == i {
                    assert(final_of(items, asg, i) == Some(v));
                    match asg_find(rest, j2) {
                        Some(w) => {
                            lemma_asg_find_present(rest, j2);
                            let k = choose|k: int|
                                0 <= k < rest.len() && (#[trigger] rest[k]).0 == j2 && rest[k].1
                                    == w;
                            assert(!used.insert(v).contains(w));
                        },
                        None => {
                            assert(!seen.insert(v).contains(plu_of(items[j2])->0));
                        },
                    }
                } else {
                    assert(final_of(items, asg, j1) == final_of(items, rest, j1));
                    assert(final_of(items, asg, j2) == final_of(items, rest, j2));
                }
            }
            assert forall|k1: int, k2: int| 0 <= k1 < k2 < asg.len() implies (
            #[trigger] asg[k1]).1 != (#[trigger] asg[k2]).1 by {
                if k1 == 0 {
                    assert(!used.insert(v).contains(rest[k2 - 1].1));
                }
            }
            assert forall|k1: int, k2: int| 0 <= k1 < k2 < asg.len() implies (
            #[trigger] asg[k1]).0 < (#[trigger] asg[k2]).0 by {
                if k1 == 0 {
                    assert(i + 1 <= rest[k2 - 1].0);
                }
            }
        }
    }
}

proof fn lemma_seed_contains(items: Seq<ItemView>, j: int)
    requires
        0 <= j < items.len(),
        plu_of(items[j]) is Some,
    ensures
        seed_used(items).contains(plu_of(items[j])->0),
    decreases items.len(),
{
    if j == items.len() - 1 {
        assert(items.last() == items[j]);
    } else {
        lemma_seed_contains(items.drop_last(), j);
        assert(items.drop_last()[j] == items[j]);
    }
}

/// *Range correction.* When a pass succeeds, every correction lies in the
/// range its item's internal or standard category dictates and collides
/// with no code already claimed in that pass — neither a code the catalog
/// already carried nor another correction; and every item whose stored code
/// lies outside its category's range, or carries none, is corrected.
pub proof fn lemma_range_correction(items: Seq<ItemView>)
    requires
        alloc_result(items) is Some,
    ensures
        ({
            let asg = alloc_result(items)->0;
            &&& forall|k: int|
                0 <= k < asg.len() ==> in_range(
                    is_internal_view(items[(#[trigger] asg[k]).0]),
                    asg[k].1,
                )
            &&& forall|k: int|
                0 <= k < asg.len() ==> !seed_used(items).contains((#[trigger] asg[k]).1)
            &&& forall|k1: int, k2: int|
                0 <= k1 < k2 < asg.len() ==> (#[trigger] asg[k1]).1 != (#[trigger] asg[k2]).1
            &&& forall|j: int|
                0 <= j < items.len() ==> match plu_of(#[trigger] items[j]) {
                    Some(p) => !in_range(is_internal_view(items[j]), p) ==> asg_find(asg, j)
                        is Some,
                    None => asg_find(asg, j) is Some,
                }
        }),
{
    assert forall|j: int|
        0 <= j < items.len() implies match plu_of(#[trigger] items[j]) {
        Some(p) => seed_used(items).contains(p),
        None => true,
    } by {
        if plu_of(items[j]) is Some {
            lemma_seed_contains(items, j);
        }
    }
    lemma_walk_props(items, 0, seed_used(items), Set::empty());
}

/// After a successful pass, item `j` of the corrected catalog carries
/// exactly its resulting code `final_of`, in the range of its unchanged
/// category.
proof fn lemma_corrected_item(items: Seq<ItemView>, asg: Seq<(int, u16)>, j: int)
    requires
        0 <= j < items.len(),
        walk_post(items, 0, seed_used(items), Set::empty(), asg),
    ensures
        corrected_items(items, asg)[j].description == items[j].description,
        final_of(items, asg, j) is Some,
        plu_of(corrected_items(items, asg)[j]) == final_of(items, asg, j),
        in_range(is_internal_view(items[j]), final_of(items, asg, j)->0),
{
    let cs = corrected_items(items, asg);
    match asg_find(asg, j) {
        Some(v) => {
            crate::digits::lemma_u16_roundtrip(v);
            lemma_asg_find_present(asg, j);
            let k = choose|k: int|
                0 <= k < asg.len() && (#[trigger] asg[k]).0 == j && asg[k].1 == v;
            assert(in_range(is_internal_view(items[j]), v));
        },
        None => {
            assert(cs[j] == items[j]);
        },
    }
}

proof fn lemma_walk_all_good(items: Seq<ItemView>, i: int, used: Set<u16>, seen: Set<u16>)
    requires
        0 <= i <= items.len(),
        forall|j: int|
            i <= j < items.len() ==> match plu_of(#[trigger] items[j]) {
                Some(p) => in_range(is_internal_view(items[j]), p) && !seen.contains(p),
                None => false,
            },
        forall|j1: int, j2: int|
            i <= j1 < j2 < items.len() ==> plu_of(#[trigger] items[j1]) != plu_of(
                #[trigger] items[j2],
            ),
    ensures
        alloc_walk(items, i, used, seen) == Some(Seq::<(int, u16)>::empty()),
    decreases items.len() - i,
{
    if i < items.len() {
        let p = plu_of(items[i])->0;
        assert forall|j: int|
            i + 1 <= j < items.len() implies match plu_of(#[trigger] items[j]) {
            Some(q) => in_range(is_internal_view(items[j]), q) && !seen.insert(p).contains(q),
            None => false,
        } by {
            assert(plu_of(items[i]) != plu_of(items[j]));
        }
        lemma_walk_all_good(items, i + 1, used, seen.insert(p));
    }
}

/// *Idempotence.* Re-running the allocator on its own corrected output
/// produces zero further corrections.
pub proof fn lemma_idempotent(items: Seq<ItemView>)
    requires
        alloc_result(items) is Some,
    ensures
        alloc_result(corrected_items(items, alloc_result(items)->0)) == Some(
            Seq::<(int, u16)>::empty(),
        ),
{
    let asg = alloc_result(items)->0;
    assert forall|j: int|
        0 <= j < items.len() implies match plu_of(#[trigger] items[j]) {
        Some(p) => seed_used(items).contains(p),
        None => true,
    } by {
        if plu_of(items[j]) is Some {
            lemma_seed_contains(items, j);
        }
    }
    lemma_walk_props(items, 0, seed_used(items), Set::empty());
    let cs = corrected_items(items, asg);
    assert forall|j: int|
        0 <= j < cs.len() implies match plu_of(#[trigger] cs[j]) {
        Some(p) => in_range(is_internal_view(cs[j]), p) && !Set::<u16>::empty().contains(p),
        None => false,
    } by {
        lemma_corrected_item(items, asg, j);
        assert(is_internal_view(cs[j]) == is_internal_view(items[j]));
    }
    assert forall|j1: int, j2: int| 0 <= j1 < j2 < cs.len() implies plu_of(
        #[trigger] cs[j1],
    ) != plu_of(#[trigger] cs[j2]) by {
        lemma_corrected_item(items, asg, j1);
        lemma_corrected_item(items, asg, j2);
        assert(final_of(items, asg, j1) != final_of(items, asg, j2));
    }
    lemma_walk_all_good(cs, 0, seed_used(cs), Set::empty());
}

/// *Uniqueness.* After a successful pass, every item of the corrected
/// catalog carries a parseable code and the codes are pairwise distinct.
pub proof fn lemma_uniqueness(items: Seq<ItemView>)
    requires
        alloc_result(items) is Some,
    ensures
        ({
            let cs = corrected_items(items, alloc_result(items)->0);
            &&& cs.len() == items.len()
            &&& forall|j: int| 0 <= j < cs.len() ==> plu_of(#[trigger] cs[j]) is Some
            &&& forall|j1: int, j2: int|
                0 <= j1 < j2 < cs.len() ==> plu_of(#[trigger] cs[j1]) != plu_of(#[trigger] cs[j2])
        }),
{
    let asg = alloc_result(items)->0;
    assert forall|j: int|
        0 <= j < items.len() implies match plu_of(#[trigger] items[j]) {
        Some(p) => seed_used(items).contains(p),
        None => true,
    } by {
        if plu_of(items[j]) is Some {
            lemma_seed_contains(items, j);
        }
    }
    lemma_walk_props(items, 0, seed_used(items), Set::empty());
    let cs = corrected_items(items, asg);
    assert forall|j: int| 0 <= j < cs.len() implies plu_of(#[trigger] cs[j]) is Some by {
        lemma_corrected_item(items, asg, j);
    }
    assert forall|j1: int, j2: int| 0 <= j1 < j2 < cs.len() implies plu_of(
        #[trigger] cs[j1],
    ) != plu_of(#[trigger] cs[j2]) by {
        lemma_corrected_item(items, asg, j1);
        lemma_corrected_item(items, asg, j2);
        assert(final_of(items, asg, j1) != final_of(items, asg, j2));
    }
}

} // verus!
