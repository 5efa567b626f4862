//! Reading typed values out of raw bytes, and comparing them.
//!
//! Numbers are defined by positional value: a byte at distance `k` from the
//! least significant end counts `256^k` times. Floats never leave their bit
//! pattern; their order is defined on the pattern itself.

use crate::model::{ByteOrder, DataType, Literal, Predicate};
use vstd::prelude::*;

verus! {

/// `256` to the power `n`.
pub open spec fn pow256(n: nat) -> nat
    decreases n,
{
    if n == 0 {
        1
    } else {
        256 * pow256((n - 1) as nat)
    }
}

/// The number that `bytes` spell with the least significant byte first.
pub open spec fn le_value(bytes: Seq<u8>) -> nat
    decreases bytes.len(),
{
    if bytes.len() == 0 {
        0
    } else {
        bytes[0] as nat + 256 * le_value(bytes.drop_first())
    }
}

/// The number that `bytes` spell with the most significant byte first.
pub open spec fn be_value(bytes: Seq<u8>) -> nat
    decreases bytes.len(),
{
    if bytes.len() == 0 {
        0
    } else {
        256 * be_value(bytes.drop_last()) + bytes.last() as nat
    }
}

/// The unsigned number that `bytes` spell in the given byte order.
pub open spec fn unsigned_value(order: ByteOrder, bytes: Seq<u8>) -> nat {
    match order {
        ByteOrder::Little => le_value(bytes),
        ByteOrder::Big => be_value(bytes),
    }
}

/// The two's complement number that `bytes` spell in the given byte order.
pub open spec fn signed_value(order: ByteOrder, bytes: Seq<u8>) -> int {
    let unsigned = unsigned_value(order, bytes);
    let modulus = pow256(bytes.len());
    if 2 * unsigned >= modulus {
        unsigned - modulus
    } else {
        unsigned as int
    }
}

/// A decoded value, as the comparisons see it.
pub enum Scalar {
    Integer(int),
    /// The bit pattern of a 32-bit float.
    Float32(u32),
    /// The bit pattern of a 64-bit float.
    Float64(u64),
    Bytes(Seq<u8>),
}

/// What `bytes` mean when they are read as a value of `data_type`.
pub open spec fn scalar_of(data_type: DataType, order: ByteOrder, bytes: Seq<u8>) -> Scalar {
    match data_type {
        DataType::Int8 | DataType::Int16 | DataType::Int32 | DataType::Int64 => Scalar::Integer(
            signed_value(order, bytes),
        ),
        DataType::UInt8 | DataType::UInt16 | DataType::UInt32 | DataType::UInt64 => Scalar::Integer(
            unsigned_value(order, bytes) as int,
        ),
        DataType::Float32 => Scalar::Float32(unsigned_value(order, bytes) as u32),
        DataType::Float64 => Scalar::Float64(unsigned_value(order, bytes) as u64),
        DataType::Bytes(_) => Scalar::Bytes(bytes),
    }
}

/// Whether a 32-bit pattern is a NaN: all exponent bits set and a mantissa
/// that is not zero, whatever the sign.
pub open spec fn f32_is_nan(bits: u32) -> bool {
    f32_magnitude(bits) > 0x7f80_0000
}

/// A 32-bit pattern without its sign bit.
pub open spec fn f32_magnitude(bits: u32) -> int {
    if bits >= 0x8000_0000 {
        bits - 0x8000_0000
    } else {
        bits as int
    }
}

/// An integer that orders 32-bit patterns that are not NaN as the floats
/// they stand for: the magnitude, negated where the sign bit is set. Both
/// zeros get `0`.
pub open spec fn f32_rank(bits: u32) -> int {
    if bits >= 0x8000_0000 {
        -f32_magnitude(bits)
    } else {
        f32_magnitude(bits)
    }
}

/// Whether a 64-bit pattern is a NaN.
pub open spec fn f64_is_nan(bits: u64) -> bool {
    f64_magnitude(bits) > 0x7ff0_0000_0000_0000
}

/// A 64-bit pattern without its sign bit.
pub open spec fn f64_magnitude(bits: u64) -> int {
    if bits >= 0x8000_0000_0000_0000 {
        bits - 0x8000_0000_0000_0000
    } else {
        bits as int
    }
}

/// An integer that orders 64-bit patterns that are not NaN as the floats
/// they stand for.
pub open spec fn f64_rank(bits: u64) -> int {
    if bits >= 0x8000_0000_0000_0000 {
        -f64_magnitude(bits)
    } else {
        f64_magnitude(bits)
    }
}

/// Whether `a` comes before `b` in the order that compares byte by byte from
/// the front.
pub open spec fn lex_less(a: Seq<u8>, b: Seq<u8>) -> bool {
    exists|i: int|
        0 <= i < a.len() && i < b.len() && #[trigger] a[i] < b[i] && (forall|k: int|
            0 <= k < i ==> a[k] == b[k])
}

/// Equality of two values. Integers are equal as numbers, byte strings byte
/// for byte. Floats are equal when their bit patterns are and they are not
/// NaN. Values of different kinds are never equal.
pub open spec fn scalar_equal(a: Scalar, b: Scalar) -> bool {
    match (a, b) {
        (Scalar::Integer(x), Scalar::Integer(y)) => x == y,
        (Scalar::Float32(x), Scalar::Float32(y)) => x == y && !f32_is_nan(x),
        (Scalar::Float64(x), Scalar::Float64(y)) => x == y && !f64_is_nan(x),
        (Scalar::Bytes(x), Scalar::Bytes(y)) => x == y,
        _ => false,
    }
}

/// Whether `a` is less than `b`. Integers compare as numbers, byte strings
/// byte by byte from the front. Floats compare as IEEE 754 orders them: a NaN
/// is less than nothing and nothing is less than it, and neither zero is
/// less than the other. Values of different kinds do not compare.
pub open spec fn scalar_less(a: Scalar, b: Scalar) -> bool {
    match (a, b) {
        (Scalar::Integer(x), Scalar::Integer(y)) => x < y,
        (Scalar::Float32(x), Scalar::Float32(y)) => !f32_is_nan(x) && !f32_is_nan(y) && f32_rank(
            x,
        ) < f32_rank(y),
        (Scalar::Float64(x), Scalar::Float64(y)) => !f64_is_nan(x) && !f64_is_nan(y) && f64_rank(
            x,
        ) < f64_rank(y),
        (Scalar::Bytes(x), Scalar::Bytes(y)) => lex_less(x, y),
        _ => false,
    }
}

/// Whether `fresh` passes `predicate` against `reference`, which is the
/// query's literal or the value seen before.
pub open spec fn holds(predicate: Predicate, fresh: Scalar, reference: Scalar) -> bool {
    match predicate {
        Predicate::Equal | Predicate::Unchanged => scalar_equal(fresh, reference),
        Predicate::NotEqual | Predicate::Changed => !scalar_equal(fresh, reference),
        Predicate::Greater => scalar_less(reference, fresh),
        Predicate::Less => scalar_less(fresh, reference),
    }
}

/// The first powers of 256, up to the one that a 64-bit number stays under.
pub proof fn lemma_pow256_values()
    ensures
        pow256(0) == 1,
        pow256(1) == 0x100,
        pow256(2) == 0x1_0000,
        pow256(3) == 0x100_0000,
        pow256(4) == 0x1_0000_0000,
        pow256(5) == 0x100_0000_0000,
        pow256(6) == 0x1_0000_0000_0000,
        pow256(7) == 0x100_0000_0000_0000,
        pow256(8) == 0x1_0000_0000_0000_0000,
{
    reveal_with_fuel(pow256, 10);
}

/// A longer byte string has a larger bound.
pub proof fn lemma_pow256_monotonic(a: nat, b: nat)
    requires
        a <= b,
    ensures
        pow256(a) <= pow256(b),
        pow256(a) >= 1,
    decreases b,
{
    if a < b {
        lemma_pow256_monotonic(a, (b - 1) as nat);
    } else if a > 0 {
        lemma_pow256_monotonic((a - 1) as nat, (a - 1) as nat);
    }
}

/// A number spelled with `n` bytes is below `256^n`.
pub proof fn lemma_value_bound(order: ByteOrder, bytes: Seq<u8>)
    ensures
        unsigned_value(order, bytes) < pow256(bytes.len()),
    decreases bytes.len(),
{
    if bytes.len() > 0 {
        lemma_value_bound(order, bytes.drop_first());
        lemma_value_bound(order, bytes.drop_last());
    }
}

/// A decoded value in executable form. A byte string is borrowed from the
/// buffer it was read from.
#[derive(Clone, Copy, Debug)]
pub enum Operand<'a> {
    Integer(i128),
    Float32(u32),
    Float64(u64),
    Bytes(&'a [u8]),
}

impl<'a> View for Operand<'a> {
    type V = Scalar;

    open spec fn view(&self) -> Scalar {
        match *self {
            Operand::Integer(x) => Scalar::Integer(x as int),
            Operand::Float32(x) => Scalar::Float32(x),
            Operand::Float64(x) => Scalar::Float64(x),
            Operand::Bytes(x) => Scalar::Bytes(x@),
        }
    }
}

impl View for Literal {
    type V = Scalar;

    open spec fn view(&self) -> Scalar {
        match *self {
            Literal::Integer(x) => Scalar::Integer(x as int),
            Literal::Float32(x) => Scalar::Float32(x),
            Literal::Float64(x) => Scalar::Float64(x),
            Literal::Bytes(x) => Scalar::Bytes(x@),
        }
    }
}

impl Literal {
    /// The literal as a value that can be compared.
    pub fn as_operand(&self) -> (r: Operand<'_>)
        ensures
            r@ == self@,
    {
        match self {
            Literal::Integer(x) => Operand::Integer(*x),
            Literal::Float32(x) => Operand::Float32(*x),
            Literal::Float64(x) => Operand::Float64(*x),
            Literal::Bytes(x) => Operand::Bytes(x.as_slice()),
        }
    }

    /// A copy of the literal.
    pub fn duplicate(&self) -> (r: Literal)
        ensures
            r@ == self@,
    {
        match self {
            Literal::Integer(x) => Literal::Integer(*x),
            Literal::Float32(x) => Literal::Float32(*x),
            Literal::Float64(x) => Literal::Float64(*x),
            Literal::Bytes(x) => Literal::Bytes(vstd::slice::slice_to_vec(x.as_slice())),
        }
    }
}

/// Reads up to eight bytes as an unsigned number.
pub fn decode_unsigned(order: ByteOrder, bytes: &[u8]) -> (value: u64)
    requires
        bytes@.len() <= 8,
    ensures
        value == unsigned_value(order, bytes@),
{
    let n: usize = bytes.len();
    let mut acc: u64 = 0;
    let mut i: usize = 0;
    proof {
        lemma_pow256_values();
    }
    match order {
        ByteOrder::Big => {
            while i < n
                invariant
                    i <= n,
                    n == bytes@.len(),
                    n <= 8,
                    acc == be_value(bytes@.subrange(0, i as int)),
                    acc < pow256(i as nat),
                    pow256(8) == 0x1_0000_0000_0000_0000,
                decreases n - i,
            {
                proof {
                    let next = bytes@.subrange(0, i + 1);
                    assert(next.drop_last() =~= bytes@.subrange(0, i as int));
                    assert(next.last() == bytes@[i as int]);
                    lemma_pow256_monotonic((i + 1) as nat, 8);
                }
                acc = acc * 256 + bytes[i] as u64;
                i += 1;
            }
            assert(bytes@.subrange(0, n as int) =~= bytes@);
        },
        ByteOrder::Little => {
            while i < n
                invariant
                    i <= n,
                    n == bytes@.len(),
                    n <= 8,
                    acc == le_value(bytes@.subrange(n - i, n as int)),
                    acc < pow256(i as nat),
                    pow256(8) == 0x1_0000_0000_0000_0000,
                decreases n - i,
            {
                proof {
                    let next = bytes@.subrange(n - i - 1, n as int);
                    assert(next.drop_first() =~= bytes@.subrange(n - i, n as int));
                    assert(next[0] == bytes@[n - i - 1]);
                    lemma_pow256_monotonic((i + 1) as nat, 8);
                }
                acc = acc * 256 + bytes[n - i - 1] as u64;
                i += 1;
            }
            assert(bytes@.subrange(0, n as int) =~= bytes@);
        },
    }
    acc
}

/// Reads up to eight bytes as a two's complement number.
pub fn decode_signed(order: ByteOrder, bytes: &[u8]) -> (value: i128)
    requires
        bytes@.len() <= 8,
    ensures
        value == signed_value(order, bytes@),
{
    let unsigned: u64 = decode_unsigned(order, bytes);
    proof {
        lemma_pow256_values();
        lemma_value_bound(order, bytes@);
    }
    let n: usize = bytes.len();
    let mut modulus: i128 = 1;
    let mut i: usize = 0;
    while i < n
        invariant
            i <= n,
            n <= 8,
            modulus == pow256(i as nat),
            pow256(8) == 0x1_0000_0000_0000_0000,
        decreases n - i,
    {
        proof {
            lemma_pow256_monotonic((i + 1) as nat, 8);
        }
        modulus = modulus * 256;
        i += 1;
    }
    let wide: i128 = unsigned as i128;
    if 2 * wide >= modulus {
        wide - modulus
    } else {
        wide
    }
}

/// Reads `bytes` as a value of `data_type`. Gives `None` exactly when there
/// are more or fewer bytes than one value of the type takes.
pub fn decode<'a>(data_type: DataType, order: ByteOrder, bytes: &'a [u8]) -> (value: Option<
    Operand<'a>,
>)
    ensures
        match value {
            Some(v) => bytes@.len() == data_type.spec_width() && v@ == scalar_of(
                data_type,
                order,
                bytes@,
            ),
            None => bytes@.len() != data_type.spec_width(),
        },
{
    if bytes.len() != data_type.width() {
        return None;
    }
    proof {
        lemma_pow256_values();
        lemma_value_bound(order, bytes@);
    }
    Some(
        match data_type {
            DataType::Int8 | DataType::Int16 | DataType::Int32 | DataType::Int64 => {
                Operand::Integer(decode_signed(order, bytes))
            },
            DataType::UInt8 | DataType::UInt16 | DataType::UInt32 | DataType::UInt64 => {
                let unsigned: u64 = decode_unsigned(order, bytes);
                Operand::Integer(unsigned as i128)
            },
            DataType::Float32 => {
                let unsigned: u64 = decode_unsigned(order, bytes);
                Operand::Float32(unsigned as u32)
            },
            DataType::Float64 => Operand::Float64(decode_unsigned(order, bytes)),
            DataType::Bytes(_) => Operand::Bytes(bytes),
        },
    )
}

/// Whether `a` comes before `b` byte by byte from the front.
pub fn bytes_less(a: &[u8], b: &[u8]) -> (r: bool)
    ensures
        r == lex_less(a@, b@),
{
    let n: usize = if a.len() < b.len() {
        a.len()
    } else {
        b.len()
    };
    let mut i: usize = 0;
    while i < n
        invariant
            i <= n,
            n <= a@.len(),
            n <= b@.len(),
            n == a@.len() || n == b@.len(),
            forall|k: int| 0 <= k < i ==> a@[k] == b@[k],
        decreases n - i,
    {
        if a[i] < b[i] {
            return true;
        }
        if a[i] > b[i] {
            assert(!lex_less(a@, b@)) by {
                if lex_less(a@, b@) {
                    let w = choose|w: int|
                        0 <= w < a@.len() && w < b@.len() && #[trigger] a@[w] < b@[w] && (forall|
                            k: int,
                        | 0 <= k < w ==> a@[k] == b@[k]);
                    if w < i {
                        assert(a@[w] == b@[w]);
                    } else if w > i {
                        assert(a@[i as int] == b@[i as int]);
                    }
                }
            }
            return false;
        }
        i += 1;
    }
    assert(!lex_less(a@, b@)) by {
        if lex_less(a@, b@) {
            let w = choose|w: int|
                0 <= w < a@.len() && w < b@.len() && #[trigger] a@[w] < b@[w] && (forall|k: int|
                    0 <= k < w ==> a@[k] == b@[k]);
            assert(a@[w] == b@[w]);
        }
    }
    false
}

/// Whether two byte strings are the same.
pub fn bytes_equal(a: &[u8], b: &[u8]) -> (r: bool)
    ensures
        r == (a@ == b@),
{
    if a.len() != b.len() {
        return false;
    }
    let n: usize = a.len();
    let mut i: usize = 0;
    while i < n
        invariant
            i <= n,
            n == a@.len(),
            n == b@.len(),
            forall|k: int| 0 <= k < i ==> a@[k] == b@[k],
        decreases n - i,
    {
        if a[i] != b[i] {
            return false;
        }
        i += 1;
    }
    assert(a@ =~= b@);
    true
}

/// Whether a 32-bit pattern is a NaN.
pub fn f32_bits_are_nan(bits: u32) -> (r: bool)
    ensures
        r == f32_is_nan(bits),
{
    let magnitude: u32 = if bits >= 0x8000_0000 {
        bits - 0x8000_0000
    } else {
        bits
    };
    magnitude > 0x7f80_0000
}

/// The place of a 32-bit pattern in the order of the floats.
pub fn f32_bits_rank(bits: u32) -> (r: i64)
    ensures
        r == f32_rank(bits),
{
    if bits >= 0x8000_0000 {
        let magnitude: u32 = bits - 0x8000_0000;
        -(magnitude as i64)
    } else {
        bits as i64
    }
}

/// Whether a 64-bit pattern is a NaN.
pub fn f64_bits_are_nan(bits: u64) -> (r: bool)
    ensures
        r == f64_is_nan(bits),
{
    let magnitude: u64 = if bits >= 0x8000_0000_0000_0000 {
        bits - 0x8000_0000_0000_0000
    } else {
        bits
    };
    magnitude > 0x7ff0_0000_0000_0000
}

/// The place of a 64-bit pattern in the order of the floats.
pub fn f64_bits_rank(bits: u64) -> (r: i128)
    ensures
        r == f64_rank(bits),
{
    if bits >= 0x8000_0000_0000_0000 {
        let magnitude: u64 = bits - 0x8000_0000_0000_0000;
        -(magnitude as i128)
    } else {
        bits as i128
    }
}

/// Whether two values are equal.
pub fn operand_equal(a: &Operand, b: &Operand) -> (r: bool)
    ensures
        r == scalar_equal(a@, b@),
{
    match (a, b) {
        (Operand::Integer(x), Operand::Integer(y)) => *x == *y,
        (Operand::Float32(x), Operand::Float32(y)) => *x == *y && !f32_bits_are_nan(*x),
        (Operand::Float64(x), Operand::Float64(y)) => *x == *y && !f64_bits_are_nan(*x),
        (Operand::Bytes(x), Operand::Bytes(y)) => bytes_equal(x, y),
        _ => false,
    }
}

/// Whether `a` is less than `b`.
pub fn operand_less(a: &Operand, b: &Operand) -> (r: bool)
    ensures
        r == scalar_less(a@, b@),
{
    match (a, b) {
        (Operand::Integer(x), Operand::Integer(y)) => *x < *y,
        (Operand::Float32(x), Operand::Float32(y)) => !f32_bits_are_nan(*x) && !f32_bits_are_nan(
            *y,
        ) && f32_bits_rank(*x) < f32_bits_rank(*y),
        (Operand::Float64(x), Operand::Float64(y)) => !f64_bits_are_nan(*x) && !f64_bits_are_nan(
            *y,
        ) && f64_bits_rank(*x) < f64_bits_rank(*y),
        (Operand::Bytes(x), Operand::Bytes(y)) => bytes_less(x, y),
        _ => false,
    }
}

/// Whether `fresh` passes `predicate` against `reference`.
pub fn judge(predicate: Predicate, fresh: &Operand, reference: &Operand) -> (r: bool)
    ensures
        r == holds(predicate, fresh@, reference@),
{
    match predicate {
        Predicate::Equal | Predicate::Unchanged => operand_equal(fresh, reference),
        Predicate::NotEqual | Predicate::Changed => !operand_equal(fresh, reference),
        Predicate::Greater => operand_less(reference, fresh),
        Predicate::Less => operand_less(fresh, reference),
    }
}

} // verus!
