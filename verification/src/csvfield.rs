//! Typed classification of CSV fields, the decision core of the CSV-to-JSON
//! converter: a field is an integer literal, a boolean literal, or plain
//! text. File reading and writing, and floating-point fields, are the
//! caller's affair.

use vstd::prelude::*;
use vstd::string::{StrSliceExecFns, StringSliceAdditionalSpecFns};

verus! {

/// What a CSV field holds.
#[derive(Clone, Copy, PartialEq, Eq, Structural, Debug)]
pub enum FieldValue {
    /// A decimal integer literal in `i64` range.
    Int(i64),
    /// The word `true` or `false`, ASCII case-insensitively.
    Bool(bool),
    /// Anything else.
    Text,
}

/// ASCII decimal digit.
pub open spec fn is_digit(b: u8) -> bool {
    48 <= b <= 57
}

/// Every byte is an ASCII decimal digit.
pub open spec fn all_digits(s: Seq<u8>) -> bool {
    forall|i: int| 0 <= i < s.len() ==> is_digit(#[trigger] s[i])
}

/// The non-negative value of a digit string.
pub open spec fn digits_val(s: Seq<u8>) -> int
    decreases s.len(),
{
    if s.len() == 0 {
        0
    } else {
        digits_val(s.drop_last()) * 10 + (s.last() - 48)
    }
}

/// A digit string's value is non-negative.
pub proof fn lemma_digits_val_nonneg(s: Seq<u8>)
    requires
        all_digits(s),
    ensures
        digits_val(s) >= 0,
    decreases s.len(),
{
    if s.len() > 0 {
        assert(all_digits(s.drop_last()));
        lemma_digits_val_nonneg(s.drop_last());
        assert(digits_val(s.drop_last()) * 10 >= 0) by (nonlinear_arith)
            requires
                digits_val(s.drop_last()) >= 0,
        ;
    }
}

/// The digit part of an integer literal: everything after an optional sign.
pub open spec fn int_body(s: Seq<u8>) -> Seq<u8> {
    if s.len() > 0 && (s[0] == 43 || s[0] == 45) {
        s.skip(1)
    } else {
        s
    }
}

/// The literal is negative: it starts with a minus sign.
pub open spec fn int_negative(s: Seq<u8>) -> bool {
    s.len() > 0 && s[0] == 45
}

/// The signed value of an integer literal.
pub open spec fn int_value(s: Seq<u8>) -> int {
    if int_negative(s) {
        -digits_val(int_body(s))
    } else {
        digits_val(int_body(s))
    }
}

/// The bytes parse as an `i64`: an optional sign, then one or more digits,
/// and the signed value fits.
pub open spec fn is_int_literal(s: Seq<u8>) -> bool {
    &&& int_body(s).len() >= 1
    &&& all_digits(int_body(s))
    &&& -0x8000_0000_0000_0000 <= int_value(s) <= 0x7fff_ffff_ffff_ffff
}

/// Lower-cases one ASCII byte; other bytes are unchanged.
pub open spec fn lower_byte(b: u8) -> u8 {
    if 65 <= b <= 90 {
        (b + 32) as u8
    } else {
        b
    }
}

/// The bytes spell `true`, ASCII case-insensitively.
pub open spec fn is_true_literal(s: Seq<u8>) -> bool {
    &&& s.len() == 4
    &&& lower_byte(s[0]) == 116
    &&& lower_byte(s[1]) == 114
    &&& lower_byte(s[2]) == 117
    &&& lower_byte(s[3]) == 101
}

/// The bytes spell `false`, ASCII case-insensitively.
pub open spec fn is_false_literal(s: Seq<u8>) -> bool {
    &&& s.len() == 5
    &&& lower_byte(s[0]) == 102
    &&& lower_byte(s[1]) == 97
    &&& lower_byte(s[2]) == 108
    &&& lower_byte(s[3]) == 115
    &&& lower_byte(s[4]) == 101
}

/// Sentinel for a digit accumulation that has passed the `i64` magnitude
/// range: one more than the largest usable magnitude.
const MAG_SENTINEL: u64 = 0x8000_0000_0000_0001;

/// Largest magnitude of a negative `i64`.
const MAG_MIN: u64 = 0x8000_0000_0000_0000;

/// Largest magnitude of a positive `i64`.
const MAG_MAX: u64 = 0x7fff_ffff_ffff_ffff;

/// The CSV converter: classifies fields into typed values.
pub struct CsvConverter;

impl CsvConverter {
    /// Parses a field as a decimal `i64` literal: an optional `+` or `-`
    /// sign, then one or more ASCII digits, with the value in range —
    /// exactly the inputs the standard integer parser accepts.
    pub fn parse_integer(field: &str) -> (r: Option<i64>)
        ensures
            match r {
                Some(v) => is_int_literal(field.spec_bytes()) && v == int_value(
                    field.spec_bytes()),
                None => !is_int_literal(field.spec_bytes()),
            },
    {
        let bytes: Vec<u8> = field.as_bytes_vec();
        let ghost all = field.spec_bytes();
        let n = bytes.len();
        let signed = n > 0 && (bytes[0] == 43 || bytes[0] == 45);
        let negative = n > 0 && bytes[0] == 45;
        let start: usize = if signed {
            1
        } else {
            0
        };
        proof {
            assert(int_body(all) =~= all.skip(start as int));
        }
        if n == start {
            return None;
        }
        let mut acc: u64 = 0;
        let mut i: usize = start;
        while i < n
            invariant
                all == field.spec_bytes(),
                bytes@ == all,
                n == all.len(),
                start <= i <= n,
                start <= 1,
                int_body(all) == all.skip(start as int),
                all_digits(all.subrange(start as int, i as int)),
                acc <= MAG_SENTINEL,
                digits_val(all.subrange(start as int, i as int)) <= MAG_MIN ==> acc
                    == digits_val(all.subrange(start as int, i as int)),
                digits_val(all.subrange(start as int, i as int)) > MAG_MIN ==> acc
                    == MAG_SENTINEL,
            decreases n - i,
        {
            let b = bytes[i];
            if b < 48 || b > 57 {
                proof {
                    assert(int_body(all)[i - start] == all[i as int]);
                    assert(!is_digit(all[i as int]));
                    assert(!all_digits(int_body(all)));
                }
                return None;
            }
            let d: u64 = (b - 48) as u64;
            let ghost prefix = all.subrange(start as int, i as int);
            let ghost extended = all.subrange(start as int, i + 1);
            proof {
                assert(extended =~= prefix.push(all[i as int]));
                assert(extended.drop_last() =~= prefix);
                assert(digits_val(extended) == digits_val(prefix) * 10 + (all[i as int] - 48));
                lemma_digits_val_nonneg(prefix);
            }
            if acc > 1_000_000_000_000_000_000 {
                proof {
                    // Ten more times anything beyond the sentinel threshold
                    // stays beyond the i64 magnitude range.
                    assert(digits_val(prefix) * 10 + (all[i as int] - 48) > MAG_MIN)
                        by (nonlinear_arith)
                        requires
                            digits_val(prefix) > 1_000_000_000_000_000_000
                                || digits_val(prefix) > MAG_MIN,
                            48 <= all[i as int] <= 57,
                    ;
                }
                acc = MAG_SENTINEL;
            } else {
                acc = acc * 10 + d;
                if acc > MAG_MIN {
                    acc = MAG_SENTINEL;
                }
            }
            i += 1;
        }
        proof {
            assert(all.subrange(start as int, n as int) =~= all.skip(start as int));
            lemma_digits_val_nonneg(int_body(all));
        }
        if acc >= MAG_SENTINEL {
            return None;
        }
        if negative {
            if acc > MAG_MIN {
                return None;
            }
            Some((-(acc as i128)) as i64)
        } else {
            if acc > MAG_MAX {
                return None;
            }
            Some(acc as i64)
        }
    }

    /// Recognizes the boolean literals `true` and `false`, ASCII
    /// case-insensitively, as the converter's lowercasing comparison does.
    pub fn parse_bool(field: &str) -> (r: Option<bool>)
        ensures
            match r {
                Some(true) => is_true_literal(field.spec_bytes()),
                Some(false) => is_false_literal(field.spec_bytes()),
                None => !is_true_literal(field.spec_bytes()) && !is_false_literal(
                    field.spec_bytes()),
            },
    {
        let bytes: Vec<u8> = field.as_bytes_vec();
        if bytes.len() == 4 {
            if Self::lower(bytes[0]) == 116 && Self::lower(bytes[1]) == 114 && Self::lower(
                bytes[2]) == 117 && Self::lower(bytes[3]) == 101 {
                return Some(true);
            }
            None
        } else if bytes.len() == 5 {
            if Self::lower(bytes[0]) == 102 && Self::lower(bytes[1]) == 97 && Self::lower(
                bytes[2]) == 108 && Self::lower(bytes[3]) == 115 && Self::lower(bytes[4])
                == 101 {
                return Some(false);
            }
            None
        } else {
            None
        }
    }

    /// Lower-cases one ASCII byte.
    fn lower(b: u8) -> (r: u8)
        ensures
            r == lower_byte(b),
    {
        if 65 <= b && b <= 90 {
            b + 32
        } else {
            b
        }
    }

    /// The derived columns of sample record `i` of the test-data generator:
    /// `(age, city_index, value_in_hundredths, active)`. Ages cycle through
    /// 20 to 69, cities through a four-entry list, values grow by ten per
    /// record, and every third record is inactive.
    pub fn sample_record(i: u64) -> (r: (u64, u64, u64, bool))
        requires
            i <= 1_000_000_000,
        ensures
            r.0 == 20 + (i % 50),
            r.1 == i % 4,
            r.2 == (100 + 10 * i) * 100,
            r.3 == (i % 3 != 0),
    {
        let age = 20 + (i % 50);
        let city = i % 4;
        let value_hundredths = (100 + 10 * i) * 100;
        let active = (i % 3) != 0;
        (age, city, value_hundredths, active)
    }

    /// Classifies one CSV field: an integer literal in `i64` range, then a
    /// boolean literal, then plain text. A fractional number counts as text
    /// here; the converter around this decides how to render it.
    pub fn classify_field(field: &str) -> (r: FieldValue)
        ensures
            is_int_literal(field.spec_bytes()) ==> r == FieldValue::Int(
                int_value(field.spec_bytes()) as i64),
            !is_int_literal(field.spec_bytes()) && is_true_literal(field.spec_bytes())
                ==> r == FieldValue::Bool(true),
            !is_int_literal(field.spec_bytes()) && is_false_literal(field.spec_bytes())
                ==> r == FieldValue::Bool(false),
            !is_int_literal(field.spec_bytes()) && !is_true_literal(field.spec_bytes())
                && !is_false_literal(field.spec_bytes()) ==> r == FieldValue::Text,
    {
        if let Some(v) = Self::parse_integer(field) {
            return FieldValue::Int(v);
        }
        if let Some(b) = Self::parse_bool(field) {
            return FieldValue::Bool(b);
        }
        FieldValue::Text
    }
}

} // verus!
