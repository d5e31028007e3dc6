//! One row of incidence data and how it is read.
//!
//! A row names a disease and a location, then optionally a year and a
//! count. The two names are required. The year and the count may be left
//! out, but where they stand they must be numbers: a plain decimal with an
//! optional leading `+` that fits 32 bits.

use vstd::prelude::*;
use vstd::string::StrSliceExecFns;

verus! {

/// A field of a row.
#[derive(Clone, Copy, Debug, PartialEq, Eq, Structural)]
pub enum Field {
    Disease,
    Location,
    Year,
    Count,
}

/// A row that cannot be read: which one, counted from zero, and which of
/// its fields is missing or is no number.
#[derive(Clone, Copy, Debug, PartialEq, Eq, Structural)]
pub struct MalformedRecord {
    pub row: usize,
    pub field: Field,
}

/// A row as read: who is linked to where, when, and how often.
#[derive(Clone, Debug)]
pub struct Record {
    pub disease: String,
    pub location: String,
    pub year: Option<u32>,
    pub count: u32,
}

/// A record with its two names as sequences of characters.
pub struct RecordView {
    pub disease: Seq<char>,
    pub location: Seq<char>,
    pub year: Option<u32>,
    pub count: u32,
}

impl View for Record {
    type V = RecordView;

    open spec fn view(&self) -> RecordView {
        RecordView { disease: self.disease@, location: self.location@, year: self.year, count: self.count }
    }
}

/// Whether `c` is one of the ten decimal digits.
pub open spec fn is_digit(c: char) -> bool {
    '0' <= c <= '9'
}

/// The number that the decimal digits `digits` write.
pub open spec fn decimal_value(digits: Seq<char>) -> int
    decreases digits.len(),
{
    if digits.len() == 0 {
        0
    } else {
        decimal_value(digits.drop_last()) * 10 + (digits.last() as int - '0' as int)
    }
}

/// The digits of a number's text: the text without its leading `+`, if it
/// has one.
pub open spec fn digits_of(text: Seq<char>) -> Seq<char> {
    if text.len() > 0 && text[0] == '+' {
        text.drop_first()
    } else {
        text
    }
}

/// The number that `text` writes, if it writes one: at least one digit,
/// nothing but digits after the optional `+`, and a value that fits 32
/// bits.
pub open spec fn number_of(text: Seq<char>) -> Option<u32> {
    let digits = digits_of(text);
    if digits.len() > 0 && (forall|i: int| 0 <= i < digits.len() ==> is_digit(#[trigger] digits[i])) && decimal_value(
        digits,
    ) <= u32::MAX {
        Some(decimal_value(digits) as u32)
    } else {
        None
    }
}

/// More digits never write a smaller number.
pub proof fn lemma_decimal_value_grows(digits: Seq<char>, shorter: int)
    requires
        0 <= shorter <= digits.len(),
        forall|i: int| 0 <= i < digits.len() ==> is_digit(#[trigger] digits[i]),
    ensures
        0 <= decimal_value(digits.take(shorter)) <= decimal_value(digits),
    decreases digits.len() - shorter,
{
    if shorter == digits.len() {
        assert(digits.take(shorter) =~= digits);
        lemma_decimal_value_nonnegative(digits);
    } else {
        lemma_decimal_value_grows(digits, shorter + 1);
        let longer = digits.take(shorter + 1);
        assert(longer.drop_last() =~= digits.take(shorter));
        assert(is_digit(digits[shorter]));
        assert(longer.last() == digits[shorter]);
        lemma_decimal_value_nonnegative(digits.take(shorter));
    }
}

proof fn lemma_decimal_value_nonnegative(digits: Seq<char>)
    requires
        forall|i: int| 0 <= i < digits.len() ==> is_digit(#[trigger] digits[i]),
    ensures
        0 <= decimal_value(digits),
    decreases digits.len(),
{
    if digits.len() > 0 {
        assert(is_digit(digits[digits.len() - 1]));
        lemma_decimal_value_nonnegative(digits.drop_last());
    }
}

/// Reads a number: decimal digits after an optional `+`, with a value
/// that fits 32 bits. Anything else is no number.
pub fn parse_count(text: &str) -> (number: Option<u32>)
    ensures
        number == number_of(text@),
{
    let len: usize = text.unicode_len();
    if len == 0 {
        return None;
    }
    let start: usize = if text.get_char(0) == '+' {
        1
    } else {
        0
    };
    if start == len {
        return None;
    }
    let ghost digits = digits_of(text@);
    let mut value: u64 = 0;
    let mut i: usize = start;
    proof {
        assert(digits.take(0) =~= Seq::<char>::empty());
    }
    while i < len
        invariant
            len == text@.len(),
            digits == digits_of(text@),
            digits.len() == len - start,
            0 <= start <= 1,
            start <= i <= len,
            forall|k: int| 0 <= k < digits.len() ==> #[trigger] digits[k] == text@[k + start],
            forall|k: int| 0 <= k < i - start ==> is_digit(#[trigger] digits[k]),
            value == decimal_value(digits.take(i - start)),
            value <= u32::MAX,
        decreases len - i,
    {
        let c: char = text.get_char(i);
        proof {
            assert(digits[i - start] == c);
        }
        if !(c >= '0' && c <= '9') {
            return None;
        }
        let digit: u64 = (c as u32 - '0' as u32) as u64;
        proof {
            let longer = digits.take(i + 1 - start);
            assert(longer.drop_last() =~= digits.take(i - start));
            assert(longer.last() == c);
        }
        value = value * 10 + digit;
        if value > 0xFFFF_FFFF {
            proof {
                if forall|k: int| 0 <= k < digits.len() ==> is_digit(#[trigger] digits[k]) {
                    lemma_decimal_value_grows(digits, i + 1 - start);
                }
            }
            return None;
        }
        i += 1;
    }
    proof {
        assert(digits.take(len - start) =~= digits);
    }
    Some(value as u32)
}

/// What a row of fields says, or which field of it fails. The fields are
/// taken in their order, and the first one that fails is named.
pub open spec fn record_of(row: usize, fields: Seq<String>) -> Result<RecordView, MalformedRecord> {
    if fields.len() < 1 {
        Err(MalformedRecord { row, field: Field::Disease })
    } else if fields.len() < 2 {
        Err(MalformedRecord { row, field: Field::Location })
    } else if fields.len() > 2 && number_of(fields[2]@) is None {
        Err(MalformedRecord { row, field: Field::Year })
    } else if fields.len() > 3 && number_of(fields[3]@) is None {
        Err(MalformedRecord { row, field: Field::Count })
    } else {
        Ok(
            RecordView {
                disease: fields[0]@,
                location: fields[1]@,
                year: if fields.len() > 2 {
                    number_of(fields[2]@)
                } else {
                    None
                },
                count: if fields.len() > 3 {
                    number_of(fields[3]@).unwrap()
                } else {
                    0
                },
            },
        )
    }
}

/// Reads the row with the number `row` from its fields: disease,
/// location, then optionally year and count. A row without a year has
/// none; a row without a count counts zero.
pub fn parse_record(row: usize, fields: &Vec<String>) -> (parsed: Result<Record, MalformedRecord>)
    ensures
        match parsed {
            Ok(record) => record_of(row, fields@) == Ok::<RecordView, MalformedRecord>(record@),
            Err(error) => record_of(row, fields@) == Err::<RecordView, MalformedRecord>(error),
        },
{
    if fields.len() < 1 {
        return Err(MalformedRecord { row, field: Field::Disease });
    }
    if fields.len() < 2 {
        return Err(MalformedRecord { row, field: Field::Location });
    }
    let year: Option<u32> = if fields.len() > 2 {
        match parse_count(fields[2].as_str()) {
            Some(y) => Some(y),
            None => {
                return Err(MalformedRecord { row, field: Field::Year });
            },
        }
    } else {
        None
    };
    let count: u32 = if fields.len() > 3 {
        match parse_count(fields[3].as_str()) {
            Some(c) => c,
            None => {
                return Err(MalformedRecord { row, field: Field::Count });
            },
        }
    } else {
        0
    };
    Ok(Record { disease: fields[0].clone(), location: fields[1].clone(), year, count })
}

} // verus!
