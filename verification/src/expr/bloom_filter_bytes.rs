//! The bytes that a bloom filter hashes for a literal.

use vstd::prelude::*;

use vstd::slice::slice_to_vec;
use vstd::utf8::encode_utf8;

use crate::expr::predicate::{Datum, LiteralView, PrimitiveLiteral};

verus! {

/// The physical type of a Parquet column.
#[derive(Debug, Clone, Copy, PartialEq, Eq, Structural)]
pub enum PhysicalType {
    Boolean,
    Int32,
    Int64,
    Int96,
    Float,
    Double,
    ByteArray,
    FixedLenByteArray,
}

/// What the encoding of a literal depends on in a Parquet column.
#[derive(Debug, Clone, Copy, PartialEq, Eq, Structural)]
pub struct ColumnDescriptor {
    pub physical_type: PhysicalType,
    /// The length of a fixed-length byte array.
    pub type_length: i32,
}

/// The lowest `width` bytes of `value` in two's complement, the lowest byte first.
pub open spec fn little_endian(value: int, width: nat) -> Seq<u8>
    decreases width,
{
    if width == 0 {
        Seq::empty()
    } else {
        seq![(value % 256) as u8] + little_endian(value / 256, (width - 1) as nat)
    }
}

/// The lowest `width` bytes of `value` in two's complement, the lowest byte last.
pub open spec fn big_endian(value: int, width: nat) -> Seq<u8> {
    little_endian(value, width).reverse()
}

/// The bytes that a column of the given shape hashes for a literal. There are none when the
/// column cannot hold such a literal, or holds it in a form that is not supported.
pub open spec fn encoded(literal: LiteralView, column: ColumnDescriptor) -> Option<Seq<u8>> {
    match (literal, column.physical_type) {
        (LiteralView::Boolean(value), PhysicalType::Boolean) => Some(
            seq![
                if value {
                    1u8
                } else {
                    0u8
                },
            ],
        ),
        (LiteralView::Int(value), PhysicalType::Int32) => Some(little_endian(value as int, 4)),
        (LiteralView::Long(value), PhysicalType::Int64) => Some(little_endian(value as int, 8)),
        (LiteralView::Float(bits), PhysicalType::Float) => Some(little_endian(bits as int, 4)),
        (LiteralView::Double(bits), PhysicalType::Double) => Some(little_endian(bits as int, 8)),
        (LiteralView::Text(value), PhysicalType::ByteArray) => Some(encode_utf8(value)),
        (LiteralView::Binary(value), PhysicalType::ByteArray) => Some(value),
        (LiteralView::Int128(mantissa), PhysicalType::Int32) => if i32::MIN <= mantissa
            <= i32::MAX {
            Some(little_endian(mantissa as int, 4))
        } else {
            None
        },
        (LiteralView::Int128(mantissa), PhysicalType::Int64) => if i64::MIN <= mantissa
            <= i64::MAX {
            Some(little_endian(mantissa as int, 8))
        } else {
            None
        },
        (LiteralView::Int128(mantissa), PhysicalType::FixedLenByteArray) => if 0
            < column.type_length <= 16 {
            Some(big_endian(mantissa as int, column.type_length as nat))
        } else {
            None
        },
        (LiteralView::Binary(value), PhysicalType::FixedLenByteArray) => if column.type_length > 0
            && value.len() == column.type_length {
            Some(value)
        } else {
            None
        },
        _ => None,
    }
}

fn little_endian_bytes(value: i128, width: usize) -> (r: Vec<u8>)
    ensures
        r@ == little_endian(value as int, width as nat),
{
    let mut out: Vec<u8> = Vec::new();
    let mut rest: i128 = value;
    let mut i: usize = 0;
    while i < width
        invariant
            i <= width,
            out@ + little_endian(rest as int, (width - i) as nat) == little_endian(
                value as int,
                width as nat,
            ),
        decreases width - i,
    {
        let ghost before = out@;
        let byte: u8 = match rest.checked_rem_euclid(256) {
            Some(low) => low as u8,
            None => 0,
        };
        out.push(byte);
        let next: i128 = match rest.checked_div_euclid(256) {
            Some(high) => high,
            None => 0,
        };
        proof {
            assert(byte == (rest as int % 256) as u8);
            assert(next == rest as int / 256);
            assert(out@ + little_endian(next as int, (width - i - 1) as nat) =~= before
                + little_endian(rest as int, (width - i) as nat));
        }
        rest = next;
        i += 1;
    }
    assert(out@ + little_endian(rest as int, 0) =~= out@);
    out
}

fn reversed(bytes: &Vec<u8>) -> (r: Vec<u8>)
    ensures
        r@ == bytes@.reverse(),
{
    let mut out: Vec<u8> = Vec::new();
    let mut i: usize = bytes.len();
    while i > 0
        invariant
            i <= bytes@.len(),
            out@.len() == bytes@.len() - i,
            forall|j: int|
                0 <= j < out@.len() ==> #[trigger] out@[j] == bytes@[bytes@.len() - 1 - j],
        decreases i,
    {
        i -= 1;
        out.push(bytes[i]);
    }
    assert(out@ =~= bytes@.reverse());
    out
}

/// Encodes a literal into the bytes that a column's bloom filter hashes.
///
/// A writer hashes each value's representation in memory, which is little-endian for numbers on
/// every platform that is supported. Returns `None` for a literal that the column's physical
/// type does not take: a caller must then assume that the value may be present.
pub fn datum_to_bloom_filter_bytes(datum: &Datum, column: &ColumnDescriptor) -> (r: Option<
    Vec<u8>,
>)
    ensures
        match r {
            Some(bytes) => encoded(datum.literal@, *column) == Some(bytes@),
            None => encoded(datum.literal@, *column) is None,
        },
        match r {
            Some(bytes) => written_as(datum.literal@, *column, bytes@),
            None => forall|bytes: Seq<u8>| !#[trigger] written_as(datum.literal@, *column, bytes),
        },
{
    proof {
        assert forall|bytes: Seq<u8>| #[trigger]
            written_as(datum.literal@, *column, bytes) == (encoded(datum.literal@, *column) == Some(
                bytes,
            )) by {
            law_bytes_are_those_that_are_written(datum.literal@, *column, bytes);
        }
    }
    match (&datum.literal, column.physical_type) {
        (PrimitiveLiteral::Boolean(value), PhysicalType::Boolean) => {
            let mut bytes: Vec<u8> = Vec::new();
            bytes.push(
                if *value {
                    1
                } else {
                    0
                },
            );
            assert(bytes@ =~= encoded(datum.literal@, *column)->0);
            Some(bytes)
        },
        (PrimitiveLiteral::Int(value), PhysicalType::Int32) => Some(
            little_endian_bytes(*value as i128, 4),
        ),
        (PrimitiveLiteral::Long(value), PhysicalType::Int64) => Some(
            little_endian_bytes(*value as i128, 8),
        ),
        (PrimitiveLiteral::Float(bits), PhysicalType::Float) => Some(
            little_endian_bytes(*bits as i128, 4),
        ),
        (PrimitiveLiteral::Double(bits), PhysicalType::Double) => Some(
            little_endian_bytes(*bits as i128, 8),
        ),
        (PrimitiveLiteral::Text(value), PhysicalType::ByteArray) => Some(
            slice_to_vec(value.as_str().as_bytes()),
        ),
        (PrimitiveLiteral::Binary(value), PhysicalType::ByteArray) => Some(
            slice_to_vec(value.as_slice()),
        ),
        (PrimitiveLiteral::Int128(mantissa), PhysicalType::Int32) => {
            if *mantissa < -2147483648 || *mantissa > 2147483647 {
                return None;
            }
            Some(little_endian_bytes(*mantissa, 4))
        },
        (PrimitiveLiteral::Int128(mantissa), PhysicalType::Int64) => {
            if *mantissa < -9223372036854775808 || *mantissa > 9223372036854775807 {
                return None;
            }
            Some(little_endian_bytes(*mantissa, 8))
        },
        (PrimitiveLiteral::Int128(mantissa), PhysicalType::FixedLenByteArray) => {
            let length: i32 = column.type_length;
            if length <= 0 || length > 16 {
                return None;
            }
            Some(reversed(&little_endian_bytes(*mantissa, length as usize)))
        },
        (PrimitiveLiteral::Binary(value), PhysicalType::FixedLenByteArray) => {
            let length: i32 = column.type_length;
            if length <= 0 || value.len() != length as usize {
                return None;
            }
            Some(slice_to_vec(value.as_slice()))
        },
        _ => None,
    }
}

/// The number that bytes stand for, the lowest byte first.
pub open spec fn number_of(bytes: Seq<u8>) -> nat
    decreases bytes.len(),
{
    if bytes.len() == 0 {
        0
    } else {
        bytes[0] as nat + 256 * number_of(bytes.drop_first())
    }
}

/// How many numbers `width` bytes can stand for.
pub open spec fn numbers_in(width: nat) -> nat
    decreases width,
{
    if width == 0 {
        1
    } else {
        256 * numbers_in((width - 1) as nat)
    }
}

/// Whether bytes are `width` ones that stand for a number, in two's complement, the lowest first.
pub open spec fn stand_for(bytes: Seq<u8>, number: int, width: nat) -> bool {
    bytes.len() == width && number_of(bytes) == number % (numbers_in(width) as int)
}

/// Whether bytes are those that a writer puts into the bloom filter of a column for a value. A
/// number is written in its memory representation, the lowest byte first; a decimal with a fixed
/// length with the highest byte first; a text in UTF-8; and bytes as they are.
pub open spec fn written_as(
    value: LiteralView,
    column: ColumnDescriptor,
    bytes: Seq<u8>,
) -> bool {
    match value {
        LiteralView::Boolean(v) => column.physical_type == PhysicalType::Boolean && stand_for(
            bytes,
            if v {
                1
            } else {
                0
            },
            1,
        ),
        LiteralView::Int(v) => column.physical_type == PhysicalType::Int32 && stand_for(
            bytes,
            v as int,
            4,
        ),
        LiteralView::Long(v) => column.physical_type == PhysicalType::Int64 && stand_for(
            bytes,
            v as int,
            8,
        ),
        LiteralView::Float(bits) => column.physical_type == PhysicalType::Float && stand_for(
            bytes,
            bits as int,
            4,
        ),
        LiteralView::Double(bits) => column.physical_type == PhysicalType::Double && stand_for(
            bytes,
            bits as int,
            8,
        ),
        LiteralView::Text(text) => column.physical_type == PhysicalType::ByteArray && bytes
            == encode_utf8(text),
        LiteralView::Binary(v) => bytes == v && (column.physical_type == PhysicalType::ByteArray
            || (column.physical_type == PhysicalType::FixedLenByteArray && column.type_length > 0
            && v.len() == column.type_length)),
        LiteralView::Int128(v) => {
            ||| column.physical_type == PhysicalType::Int32 && -0x8000_0000 <= v < 0x8000_0000
                && stand_for(bytes, v as int, 4)
            ||| column.physical_type == PhysicalType::Int64 && -0x8000_0000_0000_0000 <= v
                < 0x8000_0000_0000_0000 && stand_for(bytes, v as int, 8)
            ||| column.physical_type == PhysicalType::FixedLenByteArray && 1 <= column.type_length
                <= 16 && stand_for(bytes.reverse(), v as int, column.type_length as nat)
        },
        _ => false,
    }
}

proof fn lemma_number_bounds(bytes: Seq<u8>)
    ensures
        number_of(bytes) < numbers_in(bytes.len()),
    decreases bytes.len(),
{
    if bytes.len() > 0 {
        lemma_number_bounds(bytes.drop_first());
    }
}

/// Bytes are given by their number and how many they are.
pub proof fn lemma_bytes_of_a_number(a: Seq<u8>, b: Seq<u8>)
    requires
        a.len() == b.len(),
        number_of(a) == number_of(b),
    ensures
        a == b,
    decreases a.len(),
{
    if a.len() > 0 {
        let x = a.drop_first();
        let y = b.drop_first();
        assert(a[0] == b[0] && number_of(x) == number_of(y));
        lemma_bytes_of_a_number(x, y);
        assert(a =~= seq![a[0]] + x);
        assert(b =~= seq![b[0]] + y);
    } else {
        assert(a =~= b);
    }
}

proof fn lemma_remainder(v: int, q: int, low: int, p: int, k: int, r: int)
    by (nonlinear_arith)
    requires
        p > 0,
        v == 256 * q + low,
        0 <= low < 256,
        q == k * p + r,
        0 <= r < p,
    ensures
        v == k * (256 * p) + (low + 256 * r),
        0 <= low + 256 * r < 256 * p,
{
}

proof fn lemma_little_endian_stands_for(value: int, width: nat)
    ensures
        stand_for(little_endian(value, width), value, width),
    decreases width,
{
    let bytes = little_endian(value, width);
    if width > 0 {
        let shorter = (width - 1) as nat;
        let q = value / 256;
        let low = value % 256;
        let rest = little_endian(q, shorter);
        let p = numbers_in(shorter) as int;
        lemma_little_endian_stands_for(q, shorter);
        lemma_number_bounds(rest);
        assert(bytes.drop_first() =~= rest);
        assert(bytes[0] as int == low);
        let r = q % p;
        let k = q / p;
        vstd::arithmetic::div_mod::lemma_fundamental_div_mod(q, p);
        assert(q == k * p + r) by (nonlinear_arith)
            requires
                q == p * k + r,
        ;
        lemma_remainder(value, q, low, p, k, r);
        vstd::arithmetic::div_mod::lemma_fundamental_div_mod_converse(
            value,
            256 * p,
            k,
            low + 256 * r,
        );
    }
}

proof fn lemma_one_byte(byte: u8)
    ensures
        stand_for(seq![byte], byte as int, 1),
{
    let bytes = seq![byte];
    assert(bytes.drop_first() =~= Seq::<u8>::empty());
    reveal_with_fuel(number_of, 2);
    reveal_with_fuel(numbers_in, 2);
    assert(number_of(bytes) == byte);
    assert(byte as int % 256 == byte);
}

proof fn lemma_same_number(a: Seq<u8>, b: Seq<u8>, number: int, width: nat)
    requires
        stand_for(a, number, width),
        stand_for(b, number, width),
    ensures
        a == b,
{
    lemma_bytes_of_a_number(a, b);
}

/// The bytes that are looked for are those that a writer puts into the filter, for every value and
/// every column; and there are such bytes for each value that the column can hold.
pub proof fn law_bytes_are_those_that_are_written(
    literal: LiteralView,
    column: ColumnDescriptor,
    bytes: Seq<u8>,
)
    ensures
        encoded(literal, column) == Some(bytes) <==> written_as(literal, column, bytes),
{
    match literal {
        LiteralView::Boolean(v) => {
            lemma_one_byte(1);
            lemma_one_byte(0);
            let own = seq![
                if v {
                    1u8
                } else {
                    0u8
                },
            ];
            if written_as(literal, column, bytes) {
                lemma_same_number(
                    bytes,
                    own,
                    if v {
                        1
                    } else {
                        0
                    },
                    1,
                );
            }
        },
        LiteralView::Int(v) => lemma_written_number(v as int, 4, bytes),
        LiteralView::Long(v) => lemma_written_number(v as int, 8, bytes),
        LiteralView::Float(v) => lemma_written_number(v as int, 4, bytes),
        LiteralView::Double(v) => lemma_written_number(v as int, 8, bytes),
        LiteralView::Int128(v) => {
            lemma_written_number(v as int, 4, bytes);
            lemma_written_number(v as int, 8, bytes);
            if column.type_length > 0 {
                let width = column.type_length as nat;
                lemma_written_number(v as int, width, bytes.reverse());
                let own = little_endian(v as int, width);
                assert(bytes.reverse().reverse() =~= bytes);
                assert(own.reverse().reverse() =~= own);
            }
        },
        _ => {},
    }
}

proof fn lemma_written_number(number: int, width: nat, bytes: Seq<u8>)
    ensures
        bytes == little_endian(number, width) <==> stand_for(bytes, number, width),
{
    lemma_little_endian_stands_for(number, width);
    if stand_for(bytes, number, width) {
        lemma_same_number(bytes, little_endian(number, width), number, width);
    }
}

/// The four bytes of an integer, the lowest first, add up to the integer modulo two to the power of
/// thirty-two.
pub proof fn law_bytes_of_an_integer(value: i32, column: ColumnDescriptor)
    requires
        column.physical_type == PhysicalType::Int32,
    ensures
        encoded(LiteralView::Int(value), column) matches Some(b) && b.len() == 4 && b[0] + 256
            * b[1] + 65536 * b[2] + 16777216 * b[3] == value as int % 4294967296,
{
    let b = little_endian(value as int, 4);
    lemma_little_endian_stands_for(value as int, 4);
    law_bytes_are_those_that_are_written(LiteralView::Int(value), column, b);
    reveal_with_fuel(number_of, 5);
    reveal_with_fuel(numbers_in, 5);
    assert(b.drop_first()[0] == b[1]);
    assert(b.drop_first().drop_first()[0] == b[2]);
    assert(b.drop_first().drop_first().drop_first()[0] == b[3]);
    assert(b.drop_first().drop_first().drop_first().drop_first().len() == 0);
}

/// Different integers have different bytes in a column of integers of eight bytes.
pub proof fn law_different_integers_have_different_bytes(
    a: i64,
    b: i64,
    column: ColumnDescriptor,
)
    requires
        a != b,
        column.physical_type == PhysicalType::Int64,
    ensures
        encoded(LiteralView::Long(a), column) != encoded(LiteralView::Long(b), column),
{
    lemma_little_endian_stands_for(a as int, 8);
    lemma_little_endian_stands_for(b as int, 8);
    assert(numbers_in(8) == 0x1_0000_0000_0000_0000) by {
        reveal_with_fuel(numbers_in, 9);
    }
}

} // verus!
