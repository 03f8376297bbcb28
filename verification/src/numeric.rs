//! Decimal text helpers: rendering an index as digits and parsing the
//! numeric text fields of the configuration screens.

use vstd::prelude::*;
use vstd::string::StringSliceAdditionalSpecFns;

verus! {

/// The UTF-8 bytes of a string value.
pub open spec fn string_bytes(s: String) -> Seq<u8> {
    vstd::utf8::encode_utf8(s@)
}

/// The decimal digits of `n >= 0` as ASCII bytes, most significant first.
pub open spec fn dec_bytes(n: int) -> Seq<u8>
    decreases n,
{
    if n < 10 {
        seq![(48 + n) as u8]
    } else {
        dec_bytes(n / 10).push((48 + n % 10) as u8)
    }
}

/// Whether every byte is an ASCII digit.
pub open spec fn all_digits(bytes: Seq<u8>) -> bool {
    forall|i: int| 0 <= i < bytes.len() ==> 48 <= #[trigger] bytes[i] <= 57
}

/// The value of an all-digit byte string, read left to right.
pub open spec fn dec_value(bytes: Seq<u8>) -> int
    decreases bytes.len(),
{
    if bytes.len() == 0 {
        0
    } else {
        dec_value(bytes.drop_last()) * 10 + (bytes.last() - 48)
    }
}

/// What `str::parse` yields for an unsigned integer type with maximum
/// `max`: an optional leading `+`, then at least one digit, in range.
pub open spec fn parse_dec(bytes: Seq<u8>, max: int) -> Option<int> {
    let digits = if bytes.len() > 0 && bytes[0] == 43 {
        bytes.skip(1)
    } else {
        bytes
    };
    if digits.len() == 0 || !all_digits(digits) {
        None
    } else if dec_value(digits) > max {
        None
    } else {
        Some(dec_value(digits))
    }
}

pub proof fn lemma_dec_value_nonneg(bytes: Seq<u8>)
    requires
        all_digits(bytes),
    ensures
        0 <= dec_value(bytes),
    decreases bytes.len(),
{
    if bytes.len() > 0 {
        assert(all_digits(bytes.drop_last())) by {
            assert(forall|i: int|
                0 <= i < bytes.len() - 1 ==> bytes.drop_last()[i] == #[trigger] bytes[i]);
        }
        lemma_dec_value_nonneg(bytes.drop_last());
    }
}

/// A longer digit string never has a smaller value than its prefix.
pub proof fn lemma_dec_value_prefix(bytes: Seq<u8>, i: int)
    requires
        all_digits(bytes),
        0 <= i <= bytes.len(),
    ensures
        dec_value(bytes) >= dec_value(bytes.take(i)),
    decreases bytes.len() - i,
{
    if i < bytes.len() {
        lemma_dec_value_prefix(bytes, i + 1);
        assert(all_digits(bytes.take(i))) by {
            assert(forall|t: int| 0 <= t < i ==> bytes.take(i)[t] == #[trigger] bytes[t]);
        }
        lemma_dec_value_nonneg(bytes.take(i));
        assert(bytes.take(i + 1).drop_last() =~= bytes.take(i));
        assert(dec_value(bytes.take(i + 1)) == dec_value(bytes.take(i)) * 10 + (bytes[i] - 48));
        assert(dec_value(bytes.take(i)) * 10 >= dec_value(bytes.take(i))) by (nonlinear_arith)
            requires
                dec_value(bytes.take(i)) >= 0,
        ;
    } else {
        assert(bytes.take(i) =~= bytes);
    }
}

/// Relies on `String::from_utf8`: ASCII bytes are valid UTF-8 and decode to
/// exactly those characters.
#[verifier::external_body]
pub(crate) fn ascii_to_string(bytes: &Vec<u8>) -> (s: String)
    requires
        forall|i: int| 0 <= i < bytes@.len() ==> #[trigger] bytes@[i] < 128,
    ensures
        s@.len() == bytes@.len(),
        forall|i: int| 0 <= i < bytes@.len() ==> #[trigger] s@[i] == bytes@[i] as char,
{
    String::from_utf8(bytes.clone()).unwrap_or_default()
}

/// The decimal digits of `n`, as bytes.
pub fn digit_bytes(n: usize) -> (out: Vec<u8>)
    ensures
        out@ == dec_bytes(n as int),
{
    let mut rev: Vec<u8> = Vec::new();
    let mut m: usize = n;
    proof {
        assert(dec_bytes(n as int) =~= dec_bytes(n as int) + rev@.reverse());
    }
    while m >= 10
        invariant
            dec_bytes(n as int) == dec_bytes(m as int) + rev@.reverse(),
        decreases m,
    {
        let ghost rev0 = rev@;
        rev.push(48 + (m % 10) as u8);
        m = m / 10;
        proof {
            assert(rev@.reverse() =~= seq![rev@.last()] + rev0.reverse());
            assert(dec_bytes(n as int) =~= dec_bytes(m as int) + rev@.reverse());
        }
    }
    let mut out: Vec<u8> = Vec::new();
    out.push(48 + (m % 10) as u8);
    proof {
        assert(m % 10 == m as int);
        assert(out@ =~= dec_bytes(m as int));
    }
    proof {
        assert(out@ =~= dec_bytes(m as int) + rev@.reverse().take(0));
    }
    let mut t: usize = rev.len();
    while t > 0
        invariant
            t <= rev@.len(),
            out@ == dec_bytes(m as int) + rev@.reverse().take(rev@.len() - t),
        decreases t,
    {
        let ghost out0 = out@;
        out.push(rev[t - 1]);
        t = t - 1;
        proof {
            assert(rev@.reverse()[rev@.len() - t - 1] == rev@[t as int]);
            assert(out@ =~= dec_bytes(m as int) + rev@.reverse().take(rev@.len() - t));
        }
    }
    proof {
        assert(rev@.reverse().take(rev@.len() as int) =~= rev@.reverse());
    }
    out
}

/// Every digit byte is ASCII.
pub proof fn lemma_dec_bytes_ascii(n: int)
    requires
        0 <= n,
    ensures
        forall|i: int| 0 <= i < dec_bytes(n).len() ==> 48 <= #[trigger] dec_bytes(n)[i] <= 57,
    decreases n,
{
    if n >= 10 {
        lemma_dec_bytes_ascii(n / 10);
        assert(forall|i: int|
            0 <= i < dec_bytes(n).len() - 1 ==> #[trigger] dec_bytes(n)[i] == dec_bytes(
                n / 10,
            )[i]);
        assert(dec_bytes(n).last() == (48 + n % 10) as u8);
        assert(48 <= (48 + n % 10) as u8 <= 57);
    } else {
        assert(dec_bytes(n) =~= seq![(48 + n) as u8]);
        assert(48 <= (48 + n) as u8 <= 57);
    }
}

/// The decimal digits of `n >= 0`, as characters.
pub open spec fn dec_chars(n: int) -> Seq<char> {
    dec_bytes(n).map_values(|b: u8| b as char)
}

/// `n` rendered as a decimal string.
pub fn usize_to_string(n: usize) -> (s: String)
    ensures
        s@ == dec_chars(n as int),
{
    let bytes = digit_bytes(n);
    proof {
        lemma_dec_bytes_ascii(n as int);
    }
    let s = ascii_to_string(&bytes);
    proof {
        assert(s@ =~= dec_chars(n as int));
    }
    s
}

/// Parses an unsigned decimal with the grammar of `str::parse`: an optional
/// leading `+`, then one or more digits, rejecting values above `max`.
pub fn parse_value(s: &str, max: u128) -> (r: Option<u128>)
    requires
        max <= u64::MAX as u128,
    ensures
        match r {
            Some(v) => v <= max && parse_dec(s.spec_bytes(), max as int) == Some(v as int),
            None => parse_dec(s.spec_bytes(), max as int) is None,
        },
{
    let bytes = s.as_bytes();
    let ghost whole = s.spec_bytes();
    let skip_plus: usize = if bytes.len() > 0 && bytes[0] == 43 {
        1
    } else {
        0
    };
    let ghost digits = if whole.len() > 0 && whole[0] == 43 {
        whole.skip(1)
    } else {
        whole
    };
    proof {
        assert(digits =~= whole.skip(skip_plus as int));
    }
    if bytes.len() == skip_plus {
        return None;
    }
    let mut v: u128 = 0;
    let mut i: usize = skip_plus;
    while i < bytes.len()
        invariant
            skip_plus <= i <= bytes@.len(),
            bytes@ == whole,
            digits == whole.skip(skip_plus as int),
            all_digits(digits.take(i - skip_plus)),
            v == dec_value(digits.take(i - skip_plus)),
            v <= max,
        decreases bytes@.len() - i,
    {
        let b = bytes[i];
        let ghost done = digits.take(i - skip_plus);
        proof {
            assert(digits.take(i + 1 - skip_plus).drop_last() =~= done);
            assert(digits.take(i + 1 - skip_plus).last() == whole[i as int]);
        }
        if b < 48 || b > 57 {
            proof {
                assert(digits[i - skip_plus] == b);
                assert(!all_digits(digits));
            }
            return None;
        }
        proof {
            assert(forall|t: int|
                0 <= t < i + 1 - skip_plus ==> 48 <= #[trigger] digits.take(
                    i + 1 - skip_plus,
                )[t] <= 57);
            assert(v * 10 + 9 <= u128::MAX) by (nonlinear_arith)
                requires
                    0 <= v <= u64::MAX as u128,
            ;
        }
        let next: u128 = v * 10 + (b - 48) as u128;
        if next > max {
            proof {
                if all_digits(digits) {
                    lemma_dec_value_prefix(digits, (i + 1 - skip_plus) as int);
                }
            }
            return None;
        }
        v = next;
        i = i + 1;
    }
    proof {
        assert(digits.take(digits.len() as int) =~= digits);
    }
    Some(v)
}

} // verus!
