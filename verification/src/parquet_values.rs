//! The typed columns of the columnar output: the type named by a column's
//! data type, what each cell text becomes in a column of a type, and when a
//! batch of rows is due.

use vstd::prelude::*;
use vstd::string::*;
use crate::text::{
    all_digits, ascii_lowercase, digit_value, is_digit, lemma_parse_signed_decimal, parse_int_spec,
    parse_integer, same_text, signed_decimal,
    to_ascii_lowercase, trim, trimmed,
};

verus! {

/// The types a column of the columnar output can have.
#[derive(Clone, Copy, PartialEq, Eq, Structural, Debug)]
pub enum ColumnType {
    Utf8,
    Int8,
    Int16,
    Int32,
    Int64,
    UInt8,
    UInt16,
    UInt32,
    UInt64,
    Float32,
    Float64,
    /// A list of unsigned 32-bit values.
    UInt32List,
    Boolean,
}

/// The column type that a column's data type names, if it names one:
/// `str`, `int8` to `int64`, `uint8` to `uint64`, `f32`, `f64`, and
/// `int32[]` (a list of unsigned 32-bit values).
pub open spec fn spec_column_type(t: Seq<char>) -> Option<ColumnType> {
    if t == seq!['s', 't', 'r'] {
        Some(ColumnType::Utf8)
    } else if t == seq!['i', 'n', 't', '8'] {
        Some(ColumnType::Int8)
    } else if t == seq!['i', 'n', 't', '1', '6'] {
        Some(ColumnType::Int16)
    } else if t == seq!['i', 'n', 't', '3', '2'] {
        Some(ColumnType::Int32)
    } else if t == seq!['i', 'n', 't', '6', '4'] {
        Some(ColumnType::Int64)
    } else if t == seq!['u', 'i', 'n', 't', '8'] {
        Some(ColumnType::UInt8)
    } else if t == seq!['u', 'i', 'n', 't', '1', '6'] {
        Some(ColumnType::UInt16)
    } else if t == seq!['u', 'i', 'n', 't', '3', '2'] {
        Some(ColumnType::UInt32)
    } else if t == seq!['u', 'i', 'n', 't', '6', '4'] {
        Some(ColumnType::UInt64)
    } else if t == seq!['f', '3', '2'] {
        Some(ColumnType::Float32)
    } else if t == seq!['f', '6', '4'] {
        Some(ColumnType::Float64)
    } else if t == seq!['i', 'n', 't', '3', '2', '[', ']'] {
        Some(ColumnType::UInt32List)
    } else {
        None
    }
}


/// The column type that a column's data type names, if it names one.
pub fn column_type_of(data_type: &str) -> (r: Option<ColumnType>)
    ensures
        r == spec_column_type(data_type@),
{
    proof {
        reveal_strlit("str");
        assert("str"@ =~= seq!['s', 't', 'r']);
        reveal_strlit("int8");
        assert("int8"@ =~= seq!['i', 'n', 't', '8']);
        reveal_strlit("int16");
        assert("int16"@ =~= seq!['i', 'n', 't', '1', '6']);
        reveal_strlit("int32");
        assert("int32"@ =~= seq!['i', 'n', 't', '3', '2']);
        reveal_strlit("int64");
        assert("int64"@ =~= seq!['i', 'n', 't', '6', '4']);
        reveal_strlit("uint8");
        assert("uint8"@ =~= seq!['u', 'i', 'n', 't', '8']);
        reveal_strlit("uint16");
        assert("uint16"@ =~= seq!['u', 'i', 'n', 't', '1', '6']);
        reveal_strlit("uint32");
        assert("uint32"@ =~= seq!['u', 'i', 'n', 't', '3', '2']);
        reveal_strlit("uint64");
        assert("uint64"@ =~= seq!['u', 'i', 'n', 't', '6', '4']);
        reveal_strlit("f32");
        assert("f32"@ =~= seq!['f', '3', '2']);
        reveal_strlit("f64");
        assert("f64"@ =~= seq!['f', '6', '4']);
        reveal_strlit("int32[]");
        assert("int32[]"@ =~= seq!['i', 'n', 't', '3', '2', '[', ']']);
    }
    if same_text(data_type, "str") {
        return Some(ColumnType::Utf8);
    }
    if same_text(data_type, "int8") {
        return Some(ColumnType::Int8);
    }
    if same_text(data_type, "int16") {
        return Some(ColumnType::Int16);
    }
    if same_text(data_type, "int32") {
        return Some(ColumnType::Int32);
    }
    if same_text(data_type, "int64") {
        return Some(ColumnType::Int64);
    }
    if same_text(data_type, "uint8") {
        return Some(ColumnType::UInt8);
    }
    if same_text(data_type, "uint16") {
        return Some(ColumnType::UInt16);
    }
    if same_text(data_type, "uint32") {
        return Some(ColumnType::UInt32);
    }
    if same_text(data_type, "uint64") {
        return Some(ColumnType::UInt64);
    }
    if same_text(data_type, "f32") {
        return Some(ColumnType::Float32);
    }
    if same_text(data_type, "f64") {
        return Some(ColumnType::Float64);
    }
    if same_text(data_type, "int32[]") {
        return Some(ColumnType::UInt32List);
    }
    None
}


/// What a cell text becomes in a column.
#[derive(Debug, Clone, PartialEq)]
pub enum CellValue {
    /// No value (an empty cell of a column that is not text).
    Null,
    Int8(i8),
    Int16(i16),
    Int32(i32),
    Int64(i64),
    UInt8(u8),
    UInt16(u16),
    UInt32(u32),
    UInt64(u64),
    /// A non-empty cell of a floating-point column, left as text for the
    /// writer to read as a float.
    Float(String),
    /// The digits of a list cell.
    Digits(Vec<u32>),
    Bool(bool),
    Text(String),
}

/// Why a cell text does not fit its column.
#[derive(Clone, Copy, PartialEq, Eq, Structural, Debug)]
pub enum CellError {
    /// The text of an integer column is no integer of the column's type.
    NotInteger,
    /// The character at this position of a list cell is no decimal digit.
    NotDigit(usize),
    /// The text of a boolean column is none of the accepted words.
    NotBoolean,
}

/// A cell's value as plain values.
pub enum CellModel {
    Null,
    Int(int),
    Float(Seq<char>),
    Digits(Seq<u32>),
    Bool(bool),
    Text(Seq<char>),
}

impl CellValue {
    pub open spec fn model(&self) -> CellModel {
        match self {
            CellValue::Null => CellModel::Null,
            CellValue::Int8(x) => CellModel::Int(*x as int),
            CellValue::Int16(x) => CellModel::Int(*x as int),
            CellValue::Int32(x) => CellModel::Int(*x as int),
            CellValue::Int64(x) => CellModel::Int(*x as int),
            CellValue::UInt8(x) => CellModel::Int(*x as int),
            CellValue::UInt16(x) => CellModel::Int(*x as int),
            CellValue::UInt32(x) => CellModel::Int(*x as int),
            CellValue::UInt64(x) => CellModel::Int(*x as int),
            CellValue::Float(s) => CellModel::Float(s@),
            CellValue::Digits(d) => CellModel::Digits(d@),
            CellValue::Bool(b) => CellModel::Bool(*b),
            CellValue::Text(s) => CellModel::Text(s@),
        }
    }

    /// Whether a value can go into a column of the type: no value at all, or
    /// the variant that the type holds.
    pub open spec fn fits(&self, t: ColumnType) -> bool {
        match self {
            CellValue::Null => true,
            CellValue::Int8(_) => t == ColumnType::Int8,
            CellValue::Int16(_) => t == ColumnType::Int16,
            CellValue::Int32(_) => t == ColumnType::Int32,
            CellValue::Int64(_) => t == ColumnType::Int64,
            CellValue::UInt8(_) => t == ColumnType::UInt8,
            CellValue::UInt16(_) => t == ColumnType::UInt16,
            CellValue::UInt32(_) => t == ColumnType::UInt32,
            CellValue::UInt64(_) => t == ColumnType::UInt64,
            CellValue::Float(_) => t == ColumnType::Float32 || t == ColumnType::Float64,
            CellValue::Digits(_) => t == ColumnType::UInt32List,
            CellValue::Bool(_) => t == ColumnType::Boolean,
            CellValue::Text(_) => t == ColumnType::Utf8,
        }
    }
}

/// The least value of an integer column type.
pub open spec fn int_lo(t: ColumnType) -> int {
    match t {
        ColumnType::Int8 => -0x80,
        ColumnType::Int16 => -0x8000,
        ColumnType::Int32 => -0x8000_0000,
        ColumnType::Int64 => -0x8000_0000_0000_0000,
        _ => 0,
    }
}

/// The greatest value of an integer column type.
pub open spec fn int_hi(t: ColumnType) -> int {
    match t {
        ColumnType::Int8 => 0x7f,
        ColumnType::Int16 => 0x7fff,
        ColumnType::Int32 => 0x7fff_ffff,
        ColumnType::Int64 => 0x7fff_ffff_ffff_ffff,
        ColumnType::UInt8 => 0xff,
        ColumnType::UInt16 => 0xffff,
        ColumnType::UInt32 => 0xffff_ffff,
        _ => 0xffff_ffff_ffff_ffff,
    }
}

/// The words a boolean cell accepts for true, compared without regard to
/// the case of ASCII letters.
pub open spec fn is_true_word(w: Seq<char>) -> bool {
    ||| w == seq!['t', 'r', 'u', 'e']
    ||| w == seq!['t']
    ||| w == seq!['1']
    ||| w == seq!['y', 'e', 's']
    ||| w == seq!['y']
}

/// The words a boolean cell accepts for false.
pub open spec fn is_false_word(w: Seq<char>) -> bool {
    ||| w == seq!['f', 'a', 'l', 's', 'e']
    ||| w == seq!['f']
    ||| w == seq!['0']
    ||| w == seq!['n', 'o']
    ||| w == seq!['n']
}

/// The position of the first character of `s` that is no decimal digit.
pub open spec fn first_non_digit(s: Seq<char>) -> int {
    choose|i: int|
        0 <= i < s.len() && !is_digit(s[i]) && forall|j: int| 0 <= j < i ==> is_digit(#[trigger] s[j])
}

/// What a cell text becomes in a column of type `t`. A text column keeps
/// the text as it is. In any other column an empty text is no value. An
/// integer column reads the text as an integer of its type; a float column
/// keeps the text to be read as a float; a list column reads each character
/// of the text without surrounding white space as one decimal digit; a
/// boolean column accepts the words `true`, `t`, `1`, `yes`, `y` and
/// `false`, `f`, `0`, `no`, `n` in any case of their ASCII letters.
pub open spec fn spec_parse_cell(t: ColumnType, v: Seq<char>) -> Result<CellModel, CellError> {
    match t {
        ColumnType::Utf8 => Ok(CellModel::Text(v)),
        ColumnType::Boolean => {
            let l = ascii_lowercase(v);
            if is_true_word(l) {
                Ok(CellModel::Bool(true))
            } else if is_false_word(l) {
                Ok(CellModel::Bool(false))
            } else if l.len() == 0 {
                Ok(CellModel::Null)
            } else {
                Err(CellError::NotBoolean)
            }
        },
        ColumnType::Float32 | ColumnType::Float64 => {
            if v.len() == 0 {
                Ok(CellModel::Null)
            } else {
                Ok(CellModel::Float(v))
            }
        },
        ColumnType::UInt32List => {
            if v.len() == 0 {
                Ok(CellModel::Null)
            } else {
                let s = trimmed(v);
                if all_digits(s) {
                    Ok(CellModel::Digits(s.map_values(|c: char| digit_value(c) as u32)))
                } else {
                    Err(CellError::NotDigit(first_non_digit(s) as usize))
                }
            }
        },
        _ => {
            if v.len() == 0 {
                Ok(CellModel::Null)
            } else {
                match parse_int_spec(v, int_lo(t), int_hi(t)) {
                    Some(x) => Ok(CellModel::Int(x)),
                    None => Err(CellError::NotInteger),
                }
            }
        },
    }
}

/// The digits of a list cell, or the position of its first non-digit.
fn digit_list(s: &str) -> (r: Result<Vec<u32>, usize>)
    ensures
        r matches Ok(d) ==> all_digits(s@) && d@ == s@.map_values(|c: char| digit_value(c) as u32),
        r matches Err(i) ==> !all_digits(s@) && i == first_non_digit(s@),
{
    let n = s.unicode_len();
    let mut d: Vec<u32> = Vec::new();
    let mut i: usize = 0;
    while i < n
        invariant
            n == s@.len(),
            i <= n,
            forall|j: int| 0 <= j < i ==> is_digit(#[trigger] s@[j]),
            d@ == s@.take(i as int).map_values(|c: char| digit_value(c) as u32),
        decreases n - i,
    {
        let c = s.get_char(i);
        if !('0' <= c && c <= '9') {
            proof {
                let k = first_non_digit(s@);
                assert(0 <= i < s@.len() && !is_digit(s@[i as int]) && forall|j: int|
                    0 <= j < i ==> is_digit(#[trigger] s@[j]));
                if k < i {
                    assert(is_digit(s@[k]));
                } else if k > i {
                    assert(is_digit(s@[i as int]));
                }
            }
            return Err(i);
        }
        d.push((c as u32) - 48);
        i = i + 1;
        assert(d@ =~= s@.take(i as int).map_values(|c: char| digit_value(c) as u32));
    }
    assert(s@.take(n as int) =~= s@);
    Ok(d)
}

/// What a cell text becomes in a column of type `t`, or why it does not fit.
pub fn parse_cell(t: ColumnType, value: &str) -> (r: Result<CellValue, CellError>)
    ensures
        r matches Ok(v) ==> spec_parse_cell(t, value@) == Ok::<CellModel, CellError>(v.model())
            && v.fits(t),
        r matches Err(e) ==> spec_parse_cell(t, value@) == Err::<CellModel, CellError>(e),
{
    match t {
        ColumnType::Utf8 => Ok(CellValue::Text(value.to_owned())),
        ColumnType::Boolean => {
            let lower = to_ascii_lowercase(value);
            let l = lower.as_str();
            proof {
                reveal_strlit("true");
                reveal_strlit("t");
                reveal_strlit("1");
                reveal_strlit("yes");
                reveal_strlit("y");
                reveal_strlit("false");
                reveal_strlit("f");
                reveal_strlit("0");
                reveal_strlit("no");
                reveal_strlit("n");
                reveal_strlit("");
                assert("true"@ =~= seq!['t', 'r', 'u', 'e']);
                assert("t"@ =~= seq!['t']);
                assert("1"@ =~= seq!['1']);
                assert("yes"@ =~= seq!['y', 'e', 's']);
                assert("y"@ =~= seq!['y']);
                assert("false"@ =~= seq!['f', 'a', 'l', 's', 'e']);
                assert("f"@ =~= seq!['f']);
                assert("0"@ =~= seq!['0']);
                assert("no"@ =~= seq!['n', 'o']);
                assert("n"@ =~= seq!['n']);
            }
            if same_text(l, "true") || same_text(l, "t") || same_text(l, "1") || same_text(l, "yes")
                || same_text(l, "y") {
                Ok(CellValue::Bool(true))
            } else if same_text(l, "false") || same_text(l, "f") || same_text(l, "0") || same_text(
                l,
                "no",
            ) || same_text(l, "n") {
                Ok(CellValue::Bool(false))
            } else if l.unicode_len() == 0 {
                Ok(CellValue::Null)
            } else {
                Err(CellError::NotBoolean)
            }
        },
        ColumnType::Float32 | ColumnType::Float64 => {
            if value.unicode_len() == 0 {
                Ok(CellValue::Null)
            } else {
                Ok(CellValue::Float(value.to_owned()))
            }
        },
        ColumnType::UInt32List => {
            if value.unicode_len() == 0 {
                Ok(CellValue::Null)
            } else {
                let digits = trim(value);
                match digit_list(digits.as_str()) {
                    Ok(d) => Ok(CellValue::Digits(d)),
                    Err(i) => Err(CellError::NotDigit(i)),
                }
            }
        },
        _ => {
            if value.unicode_len() == 0 {
                return Ok(CellValue::Null);
            }
            let (lo, hi): (i128, i128) = match t {
                ColumnType::Int8 => (-0x80, 0x7f),
                ColumnType::Int16 => (-0x8000, 0x7fff),
                ColumnType::Int32 => (-0x8000_0000, 0x7fff_ffff),
                ColumnType::Int64 => (-0x8000_0000_0000_0000, 0x7fff_ffff_ffff_ffff),
                ColumnType::UInt8 => (0, 0xff),
                ColumnType::UInt16 => (0, 0xffff),
                ColumnType::UInt32 => (0, 0xffff_ffff),
                _ => (0, 0xffff_ffff_ffff_ffff),
            };
            assert(lo == int_lo(t) && hi == int_hi(t));
            match parse_integer(value, lo, hi) {
                None => Err(CellError::NotInteger),
                Some(x) => {
                    let v = match t {
                        ColumnType::Int8 => CellValue::Int8(x as i8),
                        ColumnType::Int16 => CellValue::Int16(x as i16),
                        ColumnType::Int32 => CellValue::Int32(x as i32),
                        ColumnType::Int64 => CellValue::Int64(x as i64),
                        ColumnType::UInt8 => CellValue::UInt8(x as u8),
                        ColumnType::UInt16 => CellValue::UInt16(x as u16),
                        ColumnType::UInt32 => CellValue::UInt32(x as u32),
                        _ => CellValue::UInt64(x as u64),
                    };
                    Ok(v)
                },
            }
        },
    }
}


/// What each cell of a row becomes in its column, each cell taken without
/// its surrounding white space; or the position and reason of the first cell
/// that does not fit.
pub fn parse_row(types: &Vec<ColumnType>, row: &Vec<String>) -> (r: Result<
    Vec<CellValue>,
    (usize, CellError),
>)
    requires
        row.len() <= types.len(),
    ensures
        r matches Ok(cells) ==> {
            &&& cells.len() == row.len()
            &&& forall|k: int|
                0 <= k < row.len() ==> spec_parse_cell(types[k], trimmed(row[k]@)) == Ok::<
                    CellModel,
                    CellError,
                >((#[trigger] cells[k]).model()) && cells[k].fits(types[k])
        },
        r matches Err((pos, e)) ==> {
            &&& pos < row.len()
            &&& spec_parse_cell(types[pos as int], trimmed(row[pos as int]@)) == Err::<
                CellModel,
                CellError,
            >(e)
            &&& forall|k: int|
                0 <= k < pos ==> (#[trigger] spec_parse_cell(types[k], trimmed(row[k]@))) is Ok
        },
{
    let n = row.len();
    let mut cells: Vec<CellValue> = Vec::new();
    let mut pos: usize = 0;
    while pos < n
        invariant
            n == row.len(),
            n <= types.len(),
            pos <= n,
            cells.len() == pos,
            forall|k: int|
                0 <= k < pos ==> spec_parse_cell(types[k], trimmed(row[k]@)) == Ok::<
                    CellModel,
                    CellError,
                >((#[trigger] cells[k]).model()) && cells[k].fits(types[k]),
        decreases n - pos,
    {
        let val = trim(row[pos].as_str());
        match parse_cell(types[pos], val.as_str()) {
            Ok(v) => {
                cells.push(v);
            },
            Err(e) => {
                assert forall|k: int| 0 <= k < pos implies (#[trigger] spec_parse_cell(
                    types[k],
                    trimmed(row[k]@),
                )) is Ok by {
                    assert(spec_parse_cell(types[k], trimmed(row[k]@)) == Ok::<
                        CellModel,
                        CellError,
                    >(cells[k].model()));
                }
                return Err((pos, e));
            },
        }
        pos = pos + 1;
    }
    Ok(cells)
}

/// What an integer column of a type makes of the decimal text of an
/// integer `v`, for the one column type.
pub open spec fn reads_as_rust_integer(t: ColumnType, v: int, min: int, max: int) -> bool {
    spec_parse_cell(t, signed_decimal(v)) == if min <= v <= max {
        Ok::<CellModel, CellError>(CellModel::Int(v))
    } else {
        Err::<CellModel, CellError>(CellError::NotInteger)
    }
}

/// An integer column accepts exactly the values of the Rust integer type
/// that its data type names, as `str::parse` for that type does: the
/// decimal text of any integer `v` reads as `v` where that Rust type holds
/// `v`, and is refused as no integer otherwise.
pub proof fn lemma_integer_columns_hold_their_rust_type(v: int)
    ensures
        reads_as_rust_integer(ColumnType::Int8, v, i8::MIN as int, i8::MAX as int),
        reads_as_rust_integer(ColumnType::Int16, v, i16::MIN as int, i16::MAX as int),
        reads_as_rust_integer(ColumnType::Int32, v, i32::MIN as int, i32::MAX as int),
        reads_as_rust_integer(ColumnType::Int64, v, i64::MIN as int, i64::MAX as int),
        reads_as_rust_integer(ColumnType::UInt8, v, u8::MIN as int, u8::MAX as int),
        reads_as_rust_integer(ColumnType::UInt16, v, u16::MIN as int, u16::MAX as int),
        reads_as_rust_integer(ColumnType::UInt32, v, u32::MIN as int, u32::MAX as int),
        reads_as_rust_integer(ColumnType::UInt64, v, u64::MIN as int, u64::MAX as int),
{
    assert(signed_decimal(v).len() > 0) by {
        if v >= 0 {
            crate::text::lemma_decimal_digits(v as nat);
        } else {
            crate::text::lemma_decimal_digits((-v) as nat);
        }
    }
    lemma_parse_signed_decimal(v, i8::MIN as int, i8::MAX as int);
    lemma_parse_signed_decimal(v, i16::MIN as int, i16::MAX as int);
    lemma_parse_signed_decimal(v, i32::MIN as int, i32::MAX as int);
    lemma_parse_signed_decimal(v, i64::MIN as int, i64::MAX as int);
    lemma_parse_signed_decimal(v, 0, u8::MAX as int);
    lemma_parse_signed_decimal(v, 0, u16::MAX as int);
    lemma_parse_signed_decimal(v, 0, u32::MAX as int);
    lemma_parse_signed_decimal(v, 0, u64::MAX as int);
}

/// Rows per batch of the columnar output.
pub const BATCH_ROWS: u32 = 1000;

/// Counts the rows given to the columnar output and tells when a batch of
/// rows is due to be written.
pub struct BatchCounter {
    pub record_count: u32,
}

/// How many batches fall due while the first `n` rows are counted.
pub open spec fn batches_due(n: nat) -> nat
    decreases n,
{
    if n == 0 {
        0
    } else {
        batches_due((n - 1) as nat) + if n % 1000 == 0 {
            1nat
        } else {
            0
        }
    }
}

impl BatchCounter {
    pub fn new() -> (c: BatchCounter)
        ensures
            c.record_count == 0,
    {
        BatchCounter { record_count: 0 }
    }

    /// Counts one more row; tells whether a batch is due after it, which is
    /// after every thousandth row.
    pub fn record_row(&mut self) -> (due: bool)
        requires
            old(self).record_count < u32::MAX,
        ensures
            final(self).record_count == old(self).record_count + 1,
            due == (final(self).record_count % BATCH_ROWS == 0),
    {
        self.record_count = self.record_count + 1;
        self.record_count % BATCH_ROWS == 0
    }
}

/// A batch falls due once per thousand rows: after `n` rows counted from
/// none, exactly `n / 1000` batches have fallen due.
pub proof fn lemma_batches_every_thousand_rows(n: nat)
    ensures
        batches_due(n) == n / 1000,
    decreases n,
{
    if n > 0 {
        lemma_batches_every_thousand_rows((n - 1) as nat);
        let m = (n - 1) as int;
        assert(n / 1000 == (n - 1) / 1000 + if n % 1000 == 0 {
            1int
        } else {
            0
        }) by (nonlinear_arith)
            requires
                n >= 1,
        ;
    }
}

} // verus!
