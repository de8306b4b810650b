//! Conversion of IT Retail's thirteen-character UPC form to UPC-A.
//!
//! The POS system stores every product code as thirteen characters beginning
//! with `00`. Weighed items (third character `2`) embed a five-digit item
//! code in positions three through seven with five trailing zeros; other
//! items carry an eleven-digit code whose UPC-A form appends a check digit.

use vstd::prelude::*;
use crate::digits::{all_digits, digit_char, digit_val, is_digit_char};

verus! {

/// Weighted checksum over an eleven-digit code: digits at even positions
/// count three times, digits at odd positions once.
pub open spec fn upca_weighted_sum(d: Seq<char>) -> nat
    decreases d.len(),
{
    if d.len() == 0 {
        0
    } else {
        upca_weighted_sum(d.drop_last()) + digit_val(d.last()) * (
        if (d.len() - 1) % 2 == 0 {
            3nat
        } else {
            1nat
        })
    }
}

/// The UPC-A check digit for an eleven-digit code.
pub open spec fn upca_check_digit(d: Seq<char>) -> nat {
    let m = upca_weighted_sum(d) % 10;
    if m > 0 {
        (10 - m) as nat
    } else {
        0
    }
}

/// Five trailing zeros mark a weighed item's code.
pub open spec fn weighed_suffix_zero(s: Seq<char>) -> bool {
    forall|i: int| 8 <= i < 13 ==> #[trigger] s[i] == '0'
}

/// What the conversion yields on every input: the five-digit item code for a
/// weighed code, the eleven digits plus check digit otherwise, and nothing
/// when the input is not a thirteen-character `00`-prefixed digit string.
pub open spec fn upca_of(s: Seq<char>) -> Option<Seq<char>> {
    if s.len() == 13 && s[0] == '0' && s[1] == '0' && all_digits(s.subrange(2, 13)) {
        if s[2] == '2' {
            if weighed_suffix_zero(s) {
                Some(s.subrange(3, 8))
            } else {
                None
            }
        } else {
            Some(s.subrange(2, 13).push(digit_char(upca_check_digit(s.subrange(2, 13)))))
        }
    } else {
        None
    }
}

proof fn lemma_weighted_sum_push(d: Seq<char>, c: char)
    ensures
        upca_weighted_sum(d.push(c)) == upca_weighted_sum(d) + digit_val(c) * (
        if d.len() % 2 == 0 {
            3nat
        } else {
            1nat
        }),
{
    assert(d.push(c).drop_last() =~= d);
    assert(d.push(c).last() == c);
}

/// Convert an IT Retail UPC to its UPC-A form, per `upca_of`.
///
/// Inputs of the wrong shape give `None`; the function never panics.
pub fn itr_upc_to_upca(upc: &String) -> (r: Option<String>)
    ensures
        match upca_of(upc@) {
            Some(t) => r matches Some(v) && v@ == t,
            None => r is None,
        },
{
    let s: &str = upc.as_str();
    let n: usize = s.unicode_len();
    if n != 13 {
        return None;
    }
    if s.get_char(0) != '0' || s.get_char(1) != '0' {
        return None;
    }
    let mut i: usize = 2;
    while i < 13
        invariant
            2 <= i <= 13,
            s@.len() == 13,
            s@ == upc@,
            forall|j: int| 2 <= j < i ==> is_digit_char(#[trigger] s@[j]),
        decreases 13 - i,
    {
        let c = s.get_char(i);
        if c < '0' || c > '9' {
            assert(!is_digit_char(s@[i as int]));
            assert(!all_digits(s@.subrange(2, 13))) by {
                assert(s@.subrange(2, 13)[i - 2] == s@[i as int]);
            }
            return None;
        }
        i = i + 1;
    }
    assert(all_digits(s@.subrange(2, 13))) by {
        assert(forall|j: int|
            0 <= j < 11 ==> #[trigger] s@.subrange(2, 13)[j] == s@[j + 2] && is_digit_char(
                s@[j + 2],
            ));
    }
    if s.get_char(2) == '2' {
        let mut k: usize = 8;
        while k < 13
            invariant
                8 <= k <= 13,
                s@.len() == 13,
                s@ == upc@,
                s@[0] == '0' && s@[1] == '0' && s@[2] == '2',
                all_digits(s@.subrange(2, 13)),
                forall|j: int| 8 <= j < k ==> #[trigger] s@[j] == '0',
            decreases 13 - k,
        {
            if s.get_char(k) != '0' {
                assert(!weighed_suffix_zero(s@));
                return None;
            }
            k = k + 1;
        }
        let code = s.substring_char(3, 8);
        Some(String::from_str(code))
    } else {
        let body = s.substring_char(2, 13);
        let ghost d = s@.subrange(2, 13);
        let mut sum: u32 = 0;
        let mut i: usize = 0;
        while i < 11
            invariant
                0 <= i <= 11,
                body@ == d,
                d.len() == 11,
                all_digits(d),
                sum == upca_weighted_sum(d.subrange(0, i as int)),
                sum <= 33 * i,
            decreases 11 - i,
        {
            let c = body.get_char(i);
            assert(is_digit_char(d[i as int]));
            let dv: u32 = c as u32 - '0' as u32;
            proof {
                assert(d.subrange(0, i + 1) =~= d.subrange(0, i as int).push(d[i as int]));
                lemma_weighted_sum_push(d.subrange(0, i as int), d[i as int]);
            }
            if i % 2 == 0 {
                sum = sum + dv * 3;
            } else {
                sum = sum + dv;
            }
            i = i + 1;
        }
        assert(d.subrange(0, 11) =~= d);
        let m: u32 = sum % 10;
        let check: u32 = if m > 0 {
            10 - m
        } else {
            0
        };
        assert(check == upca_check_digit(d));
        let mut out = String::from_str(body);
        crate::digits::append_u32(&mut out, check);
        proof {
            assert(check < 10);
            assert(crate::digits::dec_digits(check as nat) =~= seq![digit_char(check as nat)]);
            assert(out@ =~= d.push(digit_char(upca_check_digit(d))));
        }
        Some(out)
    }
}

} // verus!
