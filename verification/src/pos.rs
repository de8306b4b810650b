//! Data the POS system exchanges with the engine: the PLU correction batch
//! and the boundary records of its REST endpoints.
//!
//! A correction batch travels upstream as a comma-separated form: a header
//! row naming the fields, one row per item, each rendered exactly as the
//! endpoint expects. Field values may not themselves contain commas.

use vstd::prelude::*;
use crate::digits::{dec_digits, is_digit_char, all_digits};

verus! {

/// One PLU correction to be pushed upstream: the item's UPC and the new
/// sixteen-bit code.
pub struct PLUAssignment {
    pub upc: String,
    pub plu: u16,
}

/// Why a row cannot join a field-assignment batch.
#[derive(Debug, PartialEq, Eq, Structural, Copy, Clone)]
pub enum FieldBatchError {
    /// The row's field count differs from the header's.
    BadItemLength,
    /// A field value contains a comma, which the form cannot carry.
    CommaInValue,
}

/// Whether a field value contains a comma.
pub open spec fn contains_comma(s: Seq<char>) -> bool {
    exists|i: int| 0 <= i < s.len() && s[i] == ','
}

/// `parts` joined by `sep`.
pub open spec fn join_with(parts: Seq<Seq<char>>, sep: Seq<char>) -> Seq<char>
    decreases parts.len(),
{
    if parts.len() == 0 {
        Seq::empty()
    } else if parts.len() == 1 {
        parts[0]
    } else {
        join_with(parts.drop_last(), sep) + sep + parts.last()
    }
}

/// A header name wrapped in double quotes.
pub open spec fn quoted(s: Seq<char>) -> Seq<char> {
    "\""@ + s + "\""@
}

/// The views of a list of strings.
pub open spec fn strs_view(v: Seq<String>) -> Seq<Seq<char>> {
    v.map_values(|s: String| s@)
}

/// The form-header line: the quoted header names, comma separated, in
/// brackets.
pub open spec fn form_header_spec(headers: Seq<Seq<char>>) -> Seq<char> {
    "["@ + join_with(headers.map_values(|h: Seq<char>| quoted(h)), ","@) + "]"@
}

/// The comma-separated form of a batch: the header row, then one row per
/// item, every row ending in a carriage-return line-feed pair.
pub open spec fn csv_spec(headers: Seq<Seq<char>>, rows: Seq<Seq<Seq<char>>>) -> Seq<char> {
    join_with(headers, ","@) + "\r\n"@ + join_with(
        rows.map_values(|row: Seq<Seq<char>>| join_with(row, ","@)),
        "\r\n"@,
    ) + "\r\n"@
}

/// Whether `s` contains a comma, per `contains_comma`.
fn has_comma(s: &str) -> (b: bool)
    ensures
        b == contains_comma(s@),
{
    let n: usize = s.unicode_len();
    let mut i: usize = 0;
    while i < n
        invariant
            0 <= i <= n,
            n == s@.len(),
            forall|j: int| 0 <= j < i ==> s@[j] != ',',
        decreases n - i,
    {
        if s.get_char(i) == ',' {
            return true;
        }
        i = i + 1;
    }
    false
}

/// Append `parts` joined by `sep` to `out`, per `join_with`.
fn append_join(out: &mut String, parts: &Vec<String>, sep: &str)
    ensures
        final(out)@ == old(out)@ + join_with(strs_view(parts@), sep@),
{
    let n: usize = parts.len();
    let mut i: usize = 0;
    while i < n
        invariant
            0 <= i <= n,
            n == parts@.len(),
            out@ == old(out)@ + join_with(strs_view(parts@.subrange(0, i as int)), sep@),
        decreases n - i,
    {
        if i > 0 {
            out.append(sep);
        }
        out.append(parts[i].as_str());
        proof {
            let pre = strs_view(parts@.subrange(0, i as int));
            let cur = strs_view(parts@.subrange(0, i + 1));
            assert(cur.drop_last() =~= pre);
            assert(cur.last() == parts@[i as int]@);
            if i == 0 {
                assert(join_with(cur, sep@) == parts@[0]@);
            }
        }
        i = i + 1;
    }
    proof {
        assert(parts@.subrange(0, n as int) =~= parts@);
        if n == 0 {
            assert(join_with(strs_view(parts@), sep@) =~= Seq::<char>::empty());
        }
    }
}

/// A batch of per-product field assignments, bound for the POS bulk-update
/// endpoint: the field names, and one row of values per product, kept in
/// the order they were added.
pub struct ProductFieldAssignments {
    headers: Vec<String>,
    items: Vec<Vec<String>>,
}

impl ProductFieldAssignments {
    /// The field names of the batch.
    pub closed spec fn spec_headers(&self) -> Seq<Seq<char>> {
        strs_view(self.headers@)
    }

    /// The value rows of the batch, in insertion order.
    pub closed spec fn spec_items(&self) -> Seq<Seq<Seq<char>>> {
        self.items@.map_values(|row: Vec<String>| strs_view(row@))
    }

    /// An empty batch over the given field names.
    pub fn new(headers: Vec<String>) -> (r: ProductFieldAssignments)
        ensures
            r.spec_headers() == strs_view(headers@),
            r.spec_items() =~= Seq::<Seq<Seq<char>>>::empty(),
    {
        ProductFieldAssignments { headers, items: Vec::new() }
    }

    /// Append one row of values. The row must carry one value per field,
    /// and no value may contain a comma; a refused row leaves the batch
    /// unchanged.
    pub fn add(&mut self, item: &Vec<&String>) -> (r: Result<(), FieldBatchError>)
        ensures
            item@.len() != old(self).spec_headers().len() ==> r == Err::<(), FieldBatchError>(
                FieldBatchError::BadItemLength,
            ) && *final(self) == *old(self),
            item@.len() == old(self).spec_headers().len() && (exists|i: int|
                0 <= i < item@.len() && contains_comma((#[trigger] item@[i])@)) ==> r == Err::<
                (),
                FieldBatchError,
            >(FieldBatchError::CommaInValue) && *final(self) == *old(self),
            item@.len() == old(self).spec_headers().len() && (forall|i: int|
                0 <= i < item@.len() ==> !contains_comma((#[trigger] item@[i])@)) ==> r == Ok::<
                (),
                FieldBatchError,
            >(()) && final(self).spec_headers() == old(self).spec_headers() && final(self).spec_items()
                == old(self).spec_items().push(item@.map_values(|s: &String| s@)),
    {
        assert(self.spec_headers().len() == self.headers@.len());
        if item.len() != self.headers.len() {
            return Err(FieldBatchError::BadItemLength);
        }
        let n: usize = item.len();
        let mut fields: Vec<String> = Vec::new();
        let mut i: usize = 0;
        while i < n
            invariant
                0 <= i <= n,
                n == item@.len(),
                n == old(self).spec_headers().len(),
                fields@.len() == i,
                forall|j: int| 0 <= j < i ==> (#[trigger] fields@[j])@ == item@[j]@,
                forall|j: int| 0 <= j < i ==> !contains_comma((#[trigger] item@[j])@),
            decreases n - i,
        {
            if has_comma(item[i].as_str()) {
                return Err(FieldBatchError::CommaInValue);
            }
            fields.push(item[i].clone());
            i = i + 1;
        }
        proof {
            assert(strs_view(fields@) =~= item@.map_values(|s: &String| s@));
        }
        self.items.push(fields);
        proof {
            assert(final(self).spec_items() =~= old(self).spec_items().push(
                item@.map_values(|s: &String| s@),
            ));
        }
        Ok(())
    }

    /// The bracketed header line of the upload form, per `form_header_spec`.
    pub fn form_header(&self) -> (r: String)
        ensures
            r@ == form_header_spec(self.spec_headers()),
    {
        let mut out = String::new();
        out.append("[");
        let n: usize = self.headers.len();
        let mut i: usize = 0;
        while i < n
            invariant
                0 <= i <= n,
                n == self.headers@.len(),
                out@ == "["@ + join_with(
                    strs_view(self.headers@.subrange(0, i as int)).map_values(
                        |h: Seq<char>| quoted(h),
                    ),
                    ","@,
                ),
            decreases n - i,
        {
            if i > 0 {
                out.append(",");
            }
            out.append("\"");
            out.append(self.headers[i].as_str());
            out.append("\"");
            proof {
                let pre = strs_view(self.headers@.subrange(0, i as int)).map_values(
                    |h: Seq<char>| quoted(h),
                );
                let cur = strs_view(self.headers@.subrange(0, i + 1)).map_values(
                    |h: Seq<char>| quoted(h),
                );
                assert(cur.drop_last() =~= pre);
                assert(cur.last() == quoted(self.headers@[i as int]@));
                if i == 0 {
                    assert(join_with(cur, ","@) == quoted(self.headers@[0]@));
                }
                assert(out@ =~= "["@ + join_with(cur, ","@));
            }
            i = i + 1;
        }
        proof {
            assert(self.headers@.subrange(0, n as int) =~= self.headers@);
            if n == 0 {
                assert(join_with(
                    strs_view(self.headers@).map_values(|h: Seq<char>| quoted(h)),
                    ","@,
                ) =~= Seq::<char>::empty());
            }
        }
        out.append("]");
        out
    }

    /// The comma-separated upload form of the batch, per `csv_spec`.
    pub fn as_csv(&self) -> (r: String)
        ensures
            r@ == csv_spec(self.spec_headers(), self.spec_items()),
    {
        let mut out = String::new();
        append_join(&mut out, &self.headers, ",");
        out.append("\r\n");
        let ghost base = out@;
        let n: usize = self.items.len();
        let mut i: usize = 0;
        while i < n
            invariant
                0 <= i <= n,
                n == self.items@.len(),
                base == join_with(self.spec_headers(), ","@) + "\r\n"@,
                out@ == base + join_with(
                    self.spec_items().subrange(0, i as int).map_values(
                        |row: Seq<Seq<char>>| join_with(row, ","@),
                    ),
                    "\r\n"@,
                ),
            decreases n - i,
        {
            if i > 0 {
                out.append("\r\n");
            }
            append_join(&mut out, &self.items[i], ",");
            proof {
                let pre = self.spec_items().subrange(0, i as int).map_values(
                    |row: Seq<Seq<char>>| join_with(row, ","@),
                );
                let cur = self.spec_items().subrange(0, i + 1).map_values(
                    |row: Seq<Seq<char>>| join_with(row, ","@),
                );
                assert(cur.drop_last() =~= pre);
                assert(cur.last() == join_with(strs_view(self.items@[i as int]@), ","@));
                if i == 0 {
                    assert(join_with(cur, "\r\n"@) == cur[0]);
                }
                assert(out@ =~= base + join_with(cur, "\r\n"@));
            }
            i = i + 1;
        }
        proof {
            assert(self.spec_items().subrange(0, n as int) =~= self.spec_items());
            if n == 0 {
                assert(join_with(
                    self.spec_items().map_values(|row: Seq<Seq<char>>| join_with(row, ","@)),
                    "\r\n"@,
                ) =~= Seq::<char>::empty());
            }
        }
        out.append("\r\n");
        out
    }
}

/// The row a correction contributes to the upload form: the UPC and the
/// decimal rendering of the new code.
pub open spec fn assignment_row(a: PLUAssignment) -> Seq<Seq<char>> {
    seq![a.upc@, dec_digits(a.plu as nat)]
}

/// Decimal renderings never contain a comma, so only a UPC can spoil a
/// batch.
proof fn lemma_dec_digits_no_comma(n: nat)
    ensures
        !contains_comma(dec_digits(n)),
{
    crate::digits::lemma_dec_digits_all_digits(n);
    assert forall|i: int| 0 <= i < dec_digits(n).len() implies dec_digits(n)[i] != ',' by {
        assert(is_digit_char(dec_digits(n)[i]));
    }
}

/// The correction batch as the POS bulk endpoint takes it: field names
/// `upc` and `PLU`, one row per correction in order. Refused exactly when
/// some UPC contains a comma, in which case nothing is built.
pub fn plu_batch(plus: &Vec<PLUAssignment>) -> (r: Result<
    ProductFieldAssignments,
    FieldBatchError,
>)
    ensures
        (exists|i: int|
            0 <= i < plus@.len() && contains_comma((#[trigger] plus@[i]).upc@)) ==> r == Err::<
            ProductFieldAssignments,
            FieldBatchError,
        >(FieldBatchError::CommaInValue),
        (forall|i: int|
            0 <= i < plus@.len() ==> !contains_comma((#[trigger] plus@[i]).upc@)) ==> (r matches Ok(
            pfa,
        ) && pfa.spec_headers() =~= seq!["upc"@, "PLU"@] && pfa.spec_items()
            =~= plus@.map_values(|a: PLUAssignment| assignment_row(a))),
{
    let mut headers: Vec<String> = Vec::new();
    headers.push(String::from_str("upc"));
    headers.push(String::from_str("PLU"));
    let mut pfa = ProductFieldAssignments::new(headers);
    assert(pfa.spec_headers() =~= seq!["upc"@, "PLU"@]);
    let n: usize = plus.len();
    let mut i: usize = 0;
    while i < n
        invariant
            0 <= i <= n,
            n == plus@.len(),
            forall|j: int| 0 <= j < i ==> !contains_comma((#[trigger] plus@[j]).upc@),
            pfa.spec_headers() =~= seq!["upc"@, "PLU"@],
            pfa.spec_items() =~= plus@.subrange(0, i as int).map_values(
                |a: PLUAssignment| assignment_row(a),
            ),
        decreases n - i,
    {
        let upc_copy = plus[i].upc.clone();
        let plu_str = crate::digits::u32_to_dec(plus[i].plu as u32);
        let mut row: Vec<&String> = Vec::new();
        row.push(&upc_copy);
        row.push(&plu_str);
        let added = pfa.add(&row);
        match added {
            Ok(_) => {
                proof {
                    assert(row@.map_values(|s: &String| s@) =~= assignment_row(plus@[i as int]));
                    assert(pfa.spec_items() =~= plus@.subrange(0, i + 1).map_values(
                        |a: PLUAssignment| assignment_row(a),
                    ));
                }
            },
            Err(e) => {
                proof {
                    lemma_dec_digits_no_comma(plus@[i as int].plu as nat);
                    assert(contains_comma(plus@[i as int].upc@));
                }
                return Err(e);
            },
        }
        i = i + 1;
    }
    proof {
        assert(plus@.subrange(0, n as int) =~= plus@);
    }
    Ok(pfa)
}

/// The fields the customer-creation endpoint requires.
#[derive(Debug)]
pub struct MinimalCustomer {
    pub first_name: String,
    pub last_name: String,
    pub email: String,
    pub phone: String,
    pub frequent_shopper: bool,
}

/// A section row as the POS sections endpoint returns it.
#[derive(Debug)]
pub struct ITRSection {
    pub section: i32,
    pub section_name: String,
    pub department_id: i32,
    pub deleted: bool,
}

/// The envelope of the sections endpoint.
#[derive(Debug)]
pub struct ITRSectionsAnswer {
    pub value: Vec<ITRSection>,
}

/// A section in the engine's own shape.
#[derive(Debug)]
pub struct Section {
    pub id: Option<i32>,
    pub name: String,
    pub deleted: bool,
    pub department_id: i32,
    pub squareup_id: Option<String>,
}

impl Section {
    /// The engine's shape of a POS section row.
    pub fn from_itr(item: &ITRSection) -> (r: Section)
        ensures
            r.id == Some(item.section),
            r.name@ == item.section_name@,
            r.department_id == item.department_id,
            r.deleted == item.deleted,
            r.squareup_id is None,
    {
        Section {
            id: Some(item.section),
            name: item.section_name.clone(),
            department_id: item.department_id,
            deleted: item.deleted,
            squareup_id: None,
        }
    }
}

/// How an outside catalog category maps onto the POS hierarchy: either a
/// section or a whole department.
#[derive(Debug, PartialEq, Eq, Structural, Hash)]
pub enum ITRCat {
    Section(i32),
    Department(i32),
}

/// A department row as the POS departments endpoint returns it.
#[derive(Debug)]
pub struct ITRDepartment {
    pub dept_no: i32,
    pub dept_name: String,
}

/// The envelope of the departments endpoint.
#[derive(Debug)]
pub struct ITRDepartmentsAnswer {
    pub value: Vec<ITRDepartment>,
}

/// A department in the engine's own shape.
#[derive(Debug)]
pub struct Department {
    pub id: Option<i32>,
    pub name: String,
    pub squareup_id: Option<String>,
}

impl Department {
    /// The engine's shape of a POS department row.
    pub fn from_itr(item: &ITRDepartment) -> (r: Department)
        ensures
            r.id == Some(item.dept_no),
            r.name@ == item.dept_name@,
            r.squareup_id is None,
    {
        Department { id: Some(item.dept_no), name: item.dept_name.clone(), squareup_id: None }
    }
}

/// The product-change reference inside an electronic-journal row.
#[derive(Debug)]
pub struct EJTxnProductChange {
    pub upc: String,
}

/// A tax class number, absent when the POS row carried no parseable one.
#[derive(Debug)]
pub struct ITRTaxId(pub Option<i32>);

/// The product reference a shrink entry carries.
#[derive(Debug)]
pub struct MinimalShrinkProduct {
    pub upc: String,
    pub description: String,
}

/// One till shortcut button.
#[derive(Debug)]
pub struct Shortcut {
    pub category_id: u32,
    pub id: u32,
    pub keystrokes: Option<String>,
    pub sort: u32,
    pub text: Option<String>,
}

/// One till shortcut category with its buttons.
#[derive(Debug)]
pub struct Category {
    pub id: u32,
    pub sort: u32,
    pub text: Option<String>,
    pub product_shortcuts: Vec<Shortcut>,
}

} // verus!
