//! The catalog data the synchronization engine works on.
//!
//! A `CatalogItem` is the engine's own record of one sellable product: the
//! fields of the POS product row that the PLU allocator and the protocol
//! driver read, with the unit price held as integer cents. Its mathematical
//! view is an `ItemView`, over which every specification in the crate is
//! stated.

use vstd::prelude::*;
use crate::digits::parse_u16_spec;

verus! {

/// The mathematical content of a catalog item.
pub ghost struct ItemView {
    pub upc: Seq<char>,
    pub description: Seq<char>,
    pub second_description: Option<Seq<char>>,
    pub price_cents: u32,
    pub department_id: i32,
    pub section_id: Option<i32>,
    pub plu: Option<Seq<char>>,
    pub deleted: bool,
    pub scale: bool,
}

/// One sellable product, as the synchronization engine sees it.
pub struct CatalogItem {
    /// Thirteen-character product code as the POS system stores it.
    pub upc: String,
    /// Display name; an `(I)` prefix marks an internal item.
    pub description: String,
    /// Ingredient text, when the product carries one.
    pub second_description: Option<String>,
    /// Unit price in cents.
    pub price_cents: u32,
    /// POS department number.
    pub department_id: i32,
    /// POS section number, when assigned.
    pub section_id: Option<i32>,
    /// The stored price look-up code, as the decimal string the POS keeps.
    pub plu: Option<String>,
    /// Soft-deletion flag; deleted items never reach a scale.
    pub deleted: bool,
    /// Whether the product is sold by weight.
    pub scale: bool,
}

impl View for CatalogItem {
    type V = ItemView;

    open spec fn view(&self) -> ItemView {
        ItemView {
            upc: self.upc@,
            description: self.description@,
            second_description: match self.second_description {
                Some(ref s) => Some(s@),
                None => None,
            },
            price_cents: self.price_cents,
            department_id: self.department_id,
            section_id: self.section_id,
            plu: match self.plu {
                Some(ref s) => Some(s@),
                None => None,
            },
            deleted: self.deleted,
            scale: self.scale,
        }
    }
}

/// The views of a catalog, item by item.
pub open spec fn views_of(items: Seq<CatalogItem>) -> Seq<ItemView> {
    items.map(|i: int, it: CatalogItem| it@)
}

/// An item is internal when its name starts with the `(I)` marker; the
/// category is re-derived from the name on every pass, never stored.
pub open spec fn is_internal_view(v: ItemView) -> bool {
    v.description.len() >= 3 && v.description[0] == '(' && v.description[1] == 'I'
        && v.description[2] == ')'
}

/// The numeric PLU an item carries, when its stored string is a parseable
/// sixteen-bit decimal.
pub open spec fn plu_of(v: ItemView) -> Option<u16> {
    match v.plu {
        Some(s) => parse_u16_spec(s),
        None => None,
    }
}

/// The key the catalog is ordered by: the section number, with unsectioned
/// items first.
pub open spec fn section_key_view(v: ItemView) -> i32 {
    match v.section_id {
        Some(k) => k,
        None => 0,
    }
}

/// The five-character item code field exists when the UPC reaches past
/// position seven.
pub open spec fn has_item_code(v: ItemView) -> bool {
    v.upc.len() >= 8
}

/// An item can be pushed to a scale once it carries a parseable PLU and a
/// well-formed item-code substring; the final catalog restriction drops the
/// rest.
pub open spec fn pushable(v: ItemView) -> bool {
    plu_of(v) is Some && has_item_code(v)
}

/// Whether `item` is internal, per `is_internal_view`.
pub fn is_internal(item: &CatalogItem) -> (b: bool)
    ensures
        b == is_internal_view(item@),
{
    let d: &str = item.description.as_str();
    if d.unicode_len() < 3 {
        return false;
    }
    d.get_char(0) == '(' && d.get_char(1) == 'I' && d.get_char(2) == ')'
}

/// The item's numeric PLU, per `plu_of`.
pub fn item_plu(item: &CatalogItem) -> (r: Option<u16>)
    ensures
        r == plu_of(item@),
{
    match &item.plu {
        Some(s) => crate::digits::parse_u16(s.as_str()),
        None => None,
    }
}

/// The item's sort key, per `section_key_view`.
pub fn section_key(item: &CatalogItem) -> (k: i32)
    ensures
        k == section_key_view(item@),
{
    match item.section_id {
        Some(k) => k,
        None => 0,
    }
}

/// Whether the item survives the final catalog restriction, per `pushable`.
pub fn is_pushable(item: &CatalogItem) -> (b: bool)
    ensures
        b == pushable(item@),
{
    let has_code = item.upc.as_str().unicode_len() >= 8;
    match item_plu(item) {
        Some(_) => has_code,
        None => false,
    }
}

} // verus!
