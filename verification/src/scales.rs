//! The catalog stages of one scale synchronization session.
//!
//! Step one of a session selects the items worth pushing — not deleted and
//! matching the caller-supplied UPC pattern — and orders them by section.
//! After the allocator's corrections are pushed upstream and the catalog
//! re-fetched, the final restriction drops every item a scale could not
//! accept: one with a missing or unparseable PLU, an internal code when
//! internal items were not asked for, or a UPC too short to carry an item
//! code.

use vstd::prelude::*;
use crate::catalog::{CatalogItem, ItemView, has_item_code, item_plu, plu_of};
use crate::order::{sorted_by_section, sorted_by_section_spec};
use crate::pattern::{regex_is_match, regex_match, regex_ok, regex_valid};
use crate::registry::SyncError;

verus! {

/// Reject a malformed UPC pattern before any device is touched: the
/// configuration error of a session, raised exactly when the pattern does
/// not compile.
pub fn check_pattern(pattern: &str) -> (r: Result<(), SyncError>)
    ensures
        r is Ok <==> regex_ok(pattern@),
        r is Err ==> r->Err_0 is Config,
{
    if regex_valid(pattern) {
        Ok(())
    } else {
        Err(SyncError::Config)
    }
}

/// An item takes part in a session when it is not deleted and its UPC
/// matches the caller's pattern.
pub open spec fn selected(pat: Seq<char>, v: ItemView) -> bool {
    !v.deleted && regex_match(pat, v.upc)
}

/// The selected items of a catalog, in catalog order.
pub open spec fn filter_selected(items: Seq<CatalogItem>, pat: Seq<char>) -> Seq<CatalogItem> {
    items.filter(|it: CatalogItem| selected(pat, it@))
}

/// An item survives the final restriction when it carries a parseable PLU
/// (an internal-range code only if asked for) and a well-formed item-code
/// substring.
pub open spec fn restricted(v: ItemView, include_internal: bool) -> bool {
    match plu_of(v) {
        Some(p) => (include_internal || p >= 1000) && has_item_code(v),
        None => false,
    }
}

/// The items of a catalog that survive the final restriction, in order.
pub open spec fn restrict_spec(items: Seq<CatalogItem>, include_internal: bool) -> Seq<
    CatalogItem,
> {
    items.filter(|it: CatalogItem| restricted(it@, include_internal))
}

/// One scale synchronization session's catalog stages.
pub struct Scales {}

impl Scales {
    /// Select the session's items: drop deleted items and those whose UPC
    /// does not match `upc_pattern`, and stable-sort the rest by section.
    pub fn select_items(&self, items: Vec<CatalogItem>, upc_pattern: &str) -> (r: Vec<CatalogItem>)
        ensures
            r@ == sorted_by_section_spec(filter_selected(items@, upc_pattern@)),
    {
        let ghost pred = |it: CatalogItem| selected(upc_pattern@, it@);
        let ghost orig = items@;
        let mut items = items;
        let mut kept: Vec<CatalogItem> = Vec::new();
        let n: usize = items.len();
        let mut i: usize = 0;
        proof {
            reveal(Seq::filter);
            assert(orig.subrange(0, 0).filter(pred) =~= Seq::<CatalogItem>::empty());
        }
        while i < n
            invariant
                0 <= i <= n,
                n == orig.len(),
                items@ =~= orig.subrange(i as int, n as int),
                kept@ == orig.subrange(0, i as int).filter(pred),
                pred == (|it: CatalogItem| selected(upc_pattern@, it@)),
            decreases n - i,
        {
            let it = items.remove(0);
            assert(it == orig[i as int]);
            let wanted = !it.deleted && regex_is_match(upc_pattern, it.upc.as_str());
            proof {
                reveal(Seq::filter);
                assert(orig.subrange(0, i + 1).drop_last() =~= orig.subrange(0, i as int));
                assert(orig.subrange(0, i + 1).last() == orig[i as int]);
            }
            if wanted {
                kept.push(it);
            }
            i = i + 1;
        }
        proof {
            assert(orig.subrange(0, n as int) =~= orig);
        }
        sorted_by_section(kept)
    }

    /// The final catalog restriction: keep the items a scale can accept,
    /// per `restricted`, in catalog order.
    pub fn restrict_items(&self, items: Vec<CatalogItem>, include_internal: bool) -> (r: Vec<
        CatalogItem,
    >)
        ensures
            r@ == restrict_spec(items@, include_internal),
    {
        let ghost pred = |it: CatalogItem| restricted(it@, include_internal);
        let ghost orig = items@;
        let mut items = items;
        let mut kept: Vec<CatalogItem> = Vec::new();
        let n: usize = items.len();
        let mut i: usize = 0;
        proof {
            reveal(Seq::filter);
            assert(orig.subrange(0, 0).filter(pred) =~= Seq::<CatalogItem>::empty());
        }
        while i < n
            invariant
                0 <= i <= n,
                n == orig.len(),
                items@ =~= orig.subrange(i as int, n as int),
                kept@ == orig.subrange(0, i as int).filter(pred),
                pred == (|it: CatalogItem| restricted(it@, include_internal)),
            decreases n - i,
        {
            let it = items.remove(0);
            assert(it == orig[i as int]);
            let wanted = match item_plu(&it) {
                Some(p) => (include_internal || p >= 1000) && it.upc.as_str().unicode_len() >= 8,
                None => false,
            };
            assert(wanted == restricted(it@, include_internal));
            proof {
                reveal(Seq::filter);
                assert(orig.subrange(0, i + 1).drop_last() =~= orig.subrange(0, i as int));
                assert(orig.subrange(0, i + 1).last() == orig[i as int]);
            }
            if wanted {
                kept.push(it);
            }
            i = i + 1;
        }
        proof {
            assert(orig.subrange(0, n as int) =~= orig);
        }
        kept
    }
}

} // verus!
