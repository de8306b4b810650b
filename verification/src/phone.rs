//! Phone-number normalization for the customer-sync side of the
//! application, and the payment platform's display format.
//!
//! Normalization keeps the digits of whatever was typed into the POS,
//! drops a leading country `1`, and cuts an overlong remainder to nine
//! digits — the cut the application has always made. The payment platform's
//! format takes exactly ten digits, rendered `(ddd) ddd-dddd`.

use vstd::prelude::*;
use crate::digits::is_digit_char;

verus! {

/// The digit characters of `s`, in order.
pub open spec fn digits_only(s: Seq<char>) -> Seq<char> {
    s.filter(|c: char| is_digit_char(c))
}

/// A normalized phone number: digits only, a leading country `1` dropped,
/// more than ten remaining digits cut to nine.
pub open spec fn normalize_phone_spec(s: Seq<char>) -> Seq<char> {
    let d = digits_only(s);
    let d1 = if d.len() >= 1 && d[0] == '1' {
        d.subrange(1, d.len() as int)
    } else {
        d
    };
    if d1.len() > 10 {
        d1.subrange(0, 9)
    } else {
        d1
    }
}

/// The payment platform's rendering of a number that normalizes to exactly
/// ten digits; nothing otherwise.
pub open spec fn square_phone_spec(s: Seq<char>) -> Option<Seq<char>> {
    let d = normalize_phone_spec(s);
    if d.len() != 10 {
        None
    } else {
        Some("("@ + d.subrange(0, 3) + ") "@ + d.subrange(3, 6) + "-"@ + d.subrange(6, 10))
    }
}

/// Append one digit character to `out`.
fn append_char_digit(out: &mut String, c: char)
    requires
        is_digit_char(c),
    ensures
        final(out)@ == old(out)@ + seq![c],
{
    proof {
        reveal_strlit("0");
        reveal_strlit("1");
        reveal_strlit("2");
        reveal_strlit("3");
        reveal_strlit("4");
        reveal_strlit("5");
        reveal_strlit("6");
        reveal_strlit("7");
        reveal_strlit("8");
        reveal_strlit("9");
    }
    match c {
        '0' => out.append("0"),
        '1' => out.append("1"),
        '2' => out.append("2"),
        '3' => out.append("3"),
        '4' => out.append("4"),
        '5' => out.append("5"),
        '6' => out.append("6"),
        '7' => out.append("7"),
        '8' => out.append("8"),
        _ => out.append("9"),
    }
    proof {
        assert(final(out)@ =~= old(out)@ + seq![c]);
    }
}

/// Normalize a phone number, per `normalize_phone_spec`.
pub fn normalize_phone(phone: &String) -> (r: String)
    ensures
        r@ == normalize_phone_spec(phone@),
{
    let s: &str = phone.as_str();
    let n: usize = s.unicode_len();
    let mut digits = String::new();
    let mut i: usize = 0;
    proof {
        reveal(Seq::filter);
        assert(digits_only(s@.subrange(0, 0)) =~= Seq::<char>::empty());
    }
    while i < n
        invariant
            0 <= i <= n,
            n == s@.len(),
            s@ == phone@,
            digits@ == digits_only(s@.subrange(0, i as int)),
        decreases n - i,
    {
        let c = s.get_char(i);
        proof {
            reveal(Seq::filter);
            assert(s@.subrange(0, i + 1).drop_last() =~= s@.subrange(0, i as int));
            assert(s@.subrange(0, i + 1).last() == s@[i as int]);
        }
        if c >= '0' && c <= '9' {
            append_char_digit(&mut digits, c);
        }
        i = i + 1;
    }
    proof {
        assert(s@.subrange(0, n as int) =~= s@);
    }
    let dlen: usize = digits.as_str().unicode_len();
    let dropped = if dlen >= 1 && digits.as_str().get_char(0) == '1' {
        let rest = digits.as_str().substring_char(1, dlen);
        String::from_str(rest)
    } else {
        digits
    };
    let rlen: usize = dropped.as_str().unicode_len();
    if rlen > 10 {
        let cut = dropped.as_str().substring_char(0, 9);
        String::from_str(cut)
    } else {
        dropped
    }
}

/// The payment platform's rendering of a stored phone value, per
/// `square_phone_spec`; a missing value renders as nothing.
pub fn square_phone(maybe_trash: &Option<String>) -> (r: Option<String>)
    ensures
        match maybe_trash {
            Some(t) => match square_phone_spec(t@) {
                Some(x) => r matches Some(v) && v@ == x,
                None => r is None,
            },
            None => r is None,
        },
{
    let trash = match maybe_trash {
        Some(t) => t,
        None => {
            return None;
        },
    };
    let dig = normalize_phone(trash);
    let d: &str = dig.as_str();
    if d.unicode_len() != 10 {
        return None;
    }
    let mut out = String::new();
    out.append("(");
    out.append(d.substring_char(0, 3));
    out.append(") ");
    out.append(d.substring_char(3, 6));
    out.append("-");
    out.append(d.substring_char(6, 10));
    proof {
        assert(out@ =~= square_phone_spec(trash@)->0);
    }
    Some(out)
}

} // verus!
