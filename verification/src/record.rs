//! The fixed-format item record a scale accepts.
//!
//! The vendor protocol carries one weighed item per download as a
//! fixed-size record: numeric fields plus null-padded text buffers of fixed
//! capacity. `TD_ST_PLU_V06` holds the fields the engine fills — every
//! other field of the vendor's record stays zero and is laid out by the
//! transport layer. Text lands in a buffer through `jam`: copied whole when
//! it fits, cut to capacity minus one otherwise, so a terminating zero
//! always remains.

use vstd::prelude::*;
use vstd::utf8::encode_utf8;
use crate::catalog::{CatalogItem, ItemView, has_item_code, item_plu, plu_of, pushable};
use crate::digits::{all_digits, dec_val, digit_val, is_digit_char};

verus! {

/// Capacity of a name buffer, terminating zero included.
pub const NAME_CAP: usize = 101;

/// Capacity of the ingredient-text buffer, terminating zero included.
pub const INGREDIENT_CAP: usize = 4097;

/// The label layout that prints ingredient text.
pub const INGREDIENT_LABEL_ID: u16 = 62;

/// Protocol action codes of the vendor's transfer layer.
#[derive(Debug, PartialEq, Eq, Structural, Copy, Clone)]
#[allow(non_camel_case_types)]
pub enum DfAction {
    NOTHING,
    GETINFO,
    DOWNLOAD,
    DELETE,
    DELETEALL,
    PING,
    COMPLETE,
    NOTIFY,
}

/// The wire value of each action code.
pub open spec fn action_code(a: DfAction) -> u16 {
    match a {
        DfAction::NOTHING => 0,
        DfAction::GETINFO => 1,
        DfAction::DOWNLOAD => 3,
        DfAction::DELETE => 4,
        DfAction::DELETEALL => 5,
        DfAction::PING => 22,
        DfAction::COMPLETE => 23,
        DfAction::NOTIFY => 27,
    }
}

impl DfAction {
    /// The wire value of this action code, per `action_code`.
    pub fn code(&self) -> (c: u16)
        ensures
            c == action_code(*self),
    {
        match self {
            DfAction::NOTHING => 0,
            DfAction::GETINFO => 1,
            DfAction::DOWNLOAD => 3,
            DfAction::DELETE => 4,
            DfAction::DELETEALL => 5,
            DfAction::PING => 22,
            DfAction::COMPLETE => 23,
            DfAction::NOTIFY => 27,
        }
    }
}

/// The ping-answer record of the vendor transport.
#[derive(Debug)]
#[allow(non_camel_case_types, non_snake_case)]
pub struct TD_ST_PINGINFO {
    pub nComplete: i32,
    pub nLoop: i32,
    pub nBytes: i32,
    pub nTime: i32,
    pub nTTL: i32,
    pub strIp: Vec<u8>,
}

impl Default for TD_ST_PINGINFO {
    /// One ping of one packet, maximum time to live, empty address buffer.
    fn default() -> (r: TD_ST_PINGINFO)
        ensures
            r.nComplete == 0 && r.nLoop == 1 && r.nBytes == 1 && r.nTime == 1 && r.nTTL == 255,
            r.strIp@ == zero_bytes_spec(41),
    {
        TD_ST_PINGINFO {
            nComplete: 0,
            nLoop: 1,
            nBytes: 1,
            nTime: 1,
            nTTL: 255,
            strIp: zero_bytes(41),
        }
    }
}

/// A buffer of `n` zero bytes.
pub open spec fn zero_bytes_spec(n: nat) -> Seq<u8> {
    Seq::new(n, |i: int| 0u8)
}

/// Null padding, truncated at capacity minus one: the copied prefix of
/// `src`, zeros to the end of the buffer.
pub open spec fn jam_spec(src: Seq<u8>, cap: nat) -> Seq<u8> {
    let copylen = if src.len() < cap {
        src.len()
    } else {
        (cap - 1) as nat
    };
    Seq::new(cap, |i: int| if i < copylen {
        src[i]
    } else {
        0u8
    })
}

/// Index of the first zero byte, or the length when none occurs.
pub open spec fn first_nul(s: Seq<u8>) -> int
    decreases s.len(),
{
    if s.len() == 0 {
        0
    } else if s[0] == 0 {
        0
    } else {
        1 + first_nul(s.drop_first())
    }
}

proof fn lemma_first_nul_bounds(s: Seq<u8>)
    ensures
        0 <= first_nul(s) <= s.len(),
    decreases s.len(),
{
    if s.len() > 0 && s[0] != 0 {
        lemma_first_nul_bounds(s.drop_first());
    }
}

/// What a scale reads out of a text buffer: the bytes before the first
/// terminating zero.
pub open spec fn c_text(s: Seq<u8>) -> Seq<u8> {
    s.subrange(0, first_nul(s))
}

/// A buffer of `n` zero bytes.
pub fn zero_bytes(n: usize) -> (r: Vec<u8>)
    ensures
        r@ == zero_bytes_spec(n as nat),
{
    let mut out: Vec<u8> = Vec::new();
    let mut i: usize = 0;
    while i < n
        invariant
            0 <= i <= n,
            out@ =~= zero_bytes_spec(n as nat).subrange(0, i as int),
        decreases n - i,
    {
        out.push(0);
        proof {
            assert(out@ =~= zero_bytes_spec(n as nat).subrange(0, i + 1));
        }
        i = i + 1;
    }
    proof {
        assert(zero_bytes_spec(n as nat).subrange(0, n as int) =~= zero_bytes_spec(n as nat));
    }
    out
}

/// Copy `src` into a fresh buffer of `cap` bytes, per `jam_spec`: whole
/// when it fits, cut to `cap - 1` bytes otherwise, zero-padded to the end.
pub fn jam(src: &Vec<u8>, cap: usize) -> (out: Vec<u8>)
    requires
        cap >= 1,
    ensures
        out@ == jam_spec(src@, cap as nat),
{
    let copylen: usize = if src.len() < cap {
        src.len()
    } else {
        cap - 1
    };
    let mut out: Vec<u8> = Vec::new();
    let mut i: usize = 0;
    while i < copylen
        invariant
            0 <= i <= copylen,
            copylen <= src@.len(),
            copylen <= cap,
            out@ =~= src@.subrange(0, i as int),
        decreases copylen - i,
    {
        out.push(src[i]);
        proof {
            assert(out@ =~= src@.subrange(0, i + 1));
        }
        i = i + 1;
    }
    while i < cap
        invariant
            copylen <= i <= cap,
            copylen <= src@.len(),
            out@.len() == i,
            forall|j: int| 0 <= j < copylen ==> out@[j] == src@[j],
            forall|j: int| copylen <= j < i ==> out@[j] == 0u8,
        decreases cap - i,
    {
        out.push(0);
        i = i + 1;
    }
    proof {
        assert(out@ =~= jam_spec(src@, cap as nat));
    }
    out
}

/// The bytes a scale reads out of a buffer, per `c_text`.
pub fn record_text(buf: &Vec<u8>) -> (out: Vec<u8>)
    ensures
        out@ == c_text(buf@),
{
    proof {
        lemma_first_nul_bounds(buf@);
    }
    let n: usize = buf.len();
    let mut out: Vec<u8> = Vec::new();
    let mut i: usize = 0;
    while i < n
        invariant
            0 <= i <= n,
            n == buf@.len(),
            i <= first_nul(buf@) <= n,
            out@ =~= buf@.subrange(0, i as int),
            forall|j: int| 0 <= j < i ==> buf@[j] != 0u8,
        decreases n - i,
    {
        proof {
            lemma_first_nul_skip(buf@, i as int);
        }
        if buf[i] == 0 {
            proof {
                assert(first_nul(buf@) == i);
            }
            return out;
        }
        out.push(buf[i]);
        proof {
            assert(out@ =~= buf@.subrange(0, i + 1));
        }
        i = i + 1;
    }
    proof {
        lemma_first_nul_skip(buf@, n as int);
        assert(first_nul(buf@) == n);
    }
    out
}

/// When the first `k` bytes are nonzero, the first zero sits at `k` exactly
/// when `k` is the end or `s[k]` is zero.
proof fn lemma_first_nul_skip(s: Seq<u8>, k: int)
    requires
        0 <= k <= s.len(),
        forall|j: int| 0 <= j < k ==> s[j] != 0u8,
    ensures
        k == s.len() ==> first_nul(s) == k,
        k < s.len() && s[k] == 0u8 ==> first_nul(s) == k,
        k < s.len() && s[k] != 0u8 ==> first_nul(s) >= k + 1,
    decreases s.len(),
{
    lemma_first_nul_bounds(s);
    if s.len() > 0 {
        lemma_first_nul_bounds(s.drop_first());
    }
    if s.len() > 0 && s[0] != 0 && k > 0 {
        assert(forall|j: int| 0 <= j < k - 1 ==> s.drop_first()[j] == s[j + 1] && s[j + 1] != 0u8);
        lemma_first_nul_skip(s.drop_first(), k - 1);
        assert(k - 1 < s.drop_first().len() ==> s.drop_first()[k - 1] == s[k]);
    }
}

/// *Truncation round trip.* A text with no zero byte that fits below the
/// buffer capacity is read back byte for byte; a longer one is read back as
/// its prefix of capacity minus one bytes; the buffer is always exactly the
/// capacity long.
pub proof fn lemma_jam_roundtrip(src: Seq<u8>, cap: nat)
    requires
        cap >= 1,
        forall|i: int| 0 <= i < src.len() ==> src[i] != 0u8,
    ensures
        jam_spec(src, cap).len() == cap,
        src.len() < cap ==> c_text(jam_spec(src, cap)) == src,
        src.len() >= cap ==> c_text(jam_spec(src, cap)) == src.subrange(0, cap - 1),
{
    let buf = jam_spec(src, cap);
    let copylen: int = if src.len() < cap {
        src.len() as int
    } else {
        cap - 1
    };
    assert(forall|j: int| 0 <= j < copylen ==> buf[j] == src[j] && buf[j] != 0u8);
    lemma_first_nul_skip(buf, copylen);
    assert(copylen < cap ==> buf[copylen] == 0u8);
    assert(first_nul(buf) == copylen);
    if src.len() < cap {
        assert(c_text(buf) =~= src);
    } else {
        assert(c_text(buf) =~= src.subrange(0, cap - 1));
    }
}

/// The fixed-format item record, holding the fields the engine fills. The
/// transport's full record carries many more fields; every one of them is
/// sent as zero.
#[derive(Debug)]
#[allow(non_camel_case_types, non_snake_case)]
pub struct TD_ST_PLU_V06 {
    /// POS department number, truncated to the record's sixteen bits.
    pub wdDepart: u16,
    /// The item's price look-up code.
    pub dwPLU: u32,
    /// Record kind: 1 marks a weighed item.
    pub btPLUType: u8,
    /// First name line, `NAME_CAP` bytes, null padded.
    pub chName1: Vec<u8>,
    /// Label layout: `INGREDIENT_LABEL_ID` when ingredient text is present,
    /// zero otherwise.
    pub wdLabel1: u16,
    /// Unit of weight: 1 is one pound.
    pub btWeightUnit: u8,
    /// Item code parsed from the UPC's embedded five digits.
    pub dwItemCode: u32,
    /// Unit price in cents.
    pub dwUnitPrice: u32,
    /// Ingredient text, `INGREDIENT_CAP` bytes, null padded.
    pub chDirectIngredient: Vec<u8>,
}

/// The buffers hold exactly their wire capacity.
pub open spec fn record_wf(r: TD_ST_PLU_V06) -> bool {
    r.chName1@.len() == NAME_CAP && r.chDirectIngredient@.len() == INGREDIENT_CAP
}

impl Default for TD_ST_PLU_V06 {
    /// The all-zero record: every numeric field zero, both buffers blank.
    fn default() -> (r: TD_ST_PLU_V06)
        ensures
            record_wf(r),
            r.wdDepart == 0 && r.dwPLU == 0 && r.btPLUType == 0 && r.wdLabel1 == 0,
            r.btWeightUnit == 0 && r.dwItemCode == 0 && r.dwUnitPrice == 0,
            r.chName1@ == zero_bytes_spec(NAME_CAP as nat),
            r.chDirectIngredient@ == zero_bytes_spec(INGREDIENT_CAP as nat),
    {
        TD_ST_PLU_V06 {
            wdDepart: 0,
            dwPLU: 0,
            btPLUType: 0,
            chName1: zero_bytes(NAME_CAP),
            wdLabel1: 0,
            btWeightUnit: 0,
            dwItemCode: 0,
            dwUnitPrice: 0,
            chDirectIngredient: zero_bytes(INGREDIENT_CAP),
        }
    }
}

/// The item code embedded in a UPC: the numeric value of characters three
/// through seven, or zero when they are not all digits.
pub open spec fn item_code_of(v: ItemView) -> u32 {
    let sub = v.upc.subrange(3, 8);
    if all_digits(sub) {
        dec_val(sub) as u32
    } else {
        0
    }
}

/// Whether an item's ingredient text is present and non-empty, which turns
/// on the ingredient label and fills the ingredient buffer.
pub open spec fn has_ingredient(v: ItemView) -> bool {
    match v.second_description {
        Some(t) => t.len() > 0,
        None => false,
    }
}

/// The record that `TD_ST_PLU_V06::from_item` fills for a pushable item.
pub open spec fn encodes_item(v: ItemView, r: TD_ST_PLU_V06) -> bool {
    &&& record_wf(r)
    &&& r.wdDepart == v.department_id as u16
    &&& r.dwPLU == plu_of(v)->0 as u32
    &&& r.btPLUType == 1
    &&& r.chName1@ == jam_spec(encode_utf8(v.description), NAME_CAP as nat)
    &&& r.btWeightUnit == 1
    &&& r.dwItemCode == item_code_of(v)
    &&& r.dwUnitPrice == v.price_cents
    &&& (if has_ingredient(v) {
        r.wdLabel1 == INGREDIENT_LABEL_ID && r.chDirectIngredient@ == jam_spec(
            encode_utf8(v.second_description->0),
            INGREDIENT_CAP as nat,
        )
    } else {
        r.wdLabel1 == 0 && r.chDirectIngredient@ == zero_bytes_spec(INGREDIENT_CAP as nat)
    })
}

impl TD_ST_PLU_V06 {
    /// Serialize one catalog item into its wire record: department, code,
    /// name (truncated, never overflowing), item code, price in cents, the
    /// weighed flag, and — only when present and non-empty — ingredient
    /// text under the ingredient label. Yields nothing exactly when the
    /// item would not survive the final catalog restriction.
    pub fn from_item(item: &CatalogItem) -> (r: Option<TD_ST_PLU_V06>)
        ensures
            r is Some <==> pushable(item@),
            r matches Some(rec) ==> encodes_item(item@, rec),
    {
        let plu: u16 = match item_plu(item) {
            Some(p) => p,
            None => {
                return None;
            },
        };
        let upc: &str = item.upc.as_str();
        if upc.unicode_len() < 8 {
            return None;
        }
        let mut rec = TD_ST_PLU_V06::default();
        let dept: u16 = #[verifier::truncate] (item.department_id as u16);
        rec.wdDepart = dept;
        rec.dwPLU = plu as u32;
        rec.btPLUType = 1;
        let name_bytes = item.description.as_str().as_bytes_vec();
        rec.chName1 = jam(&name_bytes, NAME_CAP);
        rec.btWeightUnit = 1;
        rec.dwItemCode = item_code(item);
        rec.dwUnitPrice = item.price_cents;
        let fill_ingredient: bool = match &item.second_description {
            Some(t) => !t.as_str().is_empty(),
            None => false,
        };
        if fill_ingredient {
            rec.wdLabel1 = INGREDIENT_LABEL_ID;
            match &item.second_description {
                Some(t) => {
                    let ing_bytes = t.as_str().as_bytes_vec();
                    rec.chDirectIngredient = jam(&ing_bytes, INGREDIENT_CAP);
                },
                None => {},
            }
        }
        Some(rec)
    }
}

proof fn lemma_dec_val_digits(s: Seq<char>)
    requires
        all_digits(s),
    ensures
        s.len() <= 1 ==> dec_val(s) <= 9,
        s.len() <= 2 ==> dec_val(s) <= 99,
        s.len() <= 3 ==> dec_val(s) <= 999,
        s.len() <= 4 ==> dec_val(s) <= 9999,
        s.len() <= 5 ==> dec_val(s) <= 99999,
    decreases s.len(),
{
    if s.len() > 0 {
        assert(forall|i: int|
            0 <= i < s.drop_last().len() ==> is_digit_char(#[trigger] s.drop_last()[i]));
        lemma_dec_val_digits(s.drop_last());
        assert(digit_val(s.last()) <= 9);
    }
}

/// The item code embedded in `item`'s UPC, per `item_code_of`.
pub fn item_code(item: &CatalogItem) -> (r: u32)
    requires
        has_item_code(item@),
    ensures
        r == item_code_of(item@),
{
    let upc: &str = item.upc.as_str();
    let ghost sub = item@.upc.subrange(3, 8);
    let mut val: u32 = 0;
    let mut i: usize = 3;
    while i < 8
        invariant
            3 <= i <= 8,
            upc@ == item@.upc,
            upc@.len() >= 8,
            sub == item@.upc.subrange(3, 8),
            all_digits(sub.subrange(0, i - 3)),
            val == dec_val(sub.subrange(0, i - 3)),
        decreases 8 - i,
    {
        let c = upc.get_char(i);
        assert(c == sub[i - 3]);
        if c < '0' || c > '9' {
            assert(!is_digit_char(sub[i - 3]));
            return 0;
        }
        let d: u32 = c as u32 - '0' as u32;
        proof {
            lemma_dec_val_digits(sub.subrange(0, i - 3));
            assert(sub.subrange(0, i - 3 + 1) =~= sub.subrange(0, i - 3).push(sub[i - 3]));
            crate::digits::lemma_dec_val_push(sub.subrange(0, i - 3), sub[i - 3]);
        }
        val = val * 10 + d;
        i = i + 1;
    }
    proof {
        assert(sub.subrange(0, 5) =~= sub);
    }
    val
}

} // verus!
