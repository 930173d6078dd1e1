//! The native byte representation of unsigned integers.
//!
//! A value of `n` bytes is a base-256 number whose digits are its bytes. On a
//! little-endian machine the first byte is the least significant digit, on a
//! big-endian machine it is the most significant one. Signed integers go
//! through the unsigned integer of the same size (two's complement).

use vstd::arithmetic::power::*;
use vstd::endian::*;
use vstd::prelude::*;

verus! {

/// The number whose base-256 digits, least significant first, are `bytes`.
pub open spec fn digits_value(bytes: Seq<u8>) -> nat
    decreases bytes.len(),
{
    if bytes.len() == 0 {
        0
    } else {
        bytes[0] as nat + 256 * digits_value(bytes.skip(1))
    }
}

/// The `n` lowest base-256 digits of `value`, least significant first.
pub open spec fn digits(value: nat, n: nat) -> Seq<u8>
    decreases n,
{
    if n == 0 {
        Seq::empty()
    } else {
        seq![(value % 256) as u8] + digits(value / 256, (n - 1) as nat)
    }
}

/// The number that `bytes` represents in the machine's byte order.
pub open spec fn native_value(bytes: Seq<u8>) -> nat {
    if endianness() is Little {
        digits_value(bytes)
    } else {
        digits_value(bytes.reverse())
    }
}

/// The `n` bytes that represent `value` in the machine's byte order.
pub open spec fn native_bytes(value: nat, n: nat) -> Seq<u8> {
    if endianness() is Little {
        digits(value, n)
    } else {
        digits(value, n).reverse()
    }
}

pub proof fn lemma_digits_len(value: nat, n: nat)
    ensures
        digits(value, n).len() == n,
    decreases n,
{
    if n > 0 {
        lemma_digits_len(value / 256, (n - 1) as nat);
    }
}

proof fn lemma_pow_step(n: nat)
    requires
        n > 0,
    ensures
        pow(256, n) == 256 * pow(256, (n - 1) as nat),
{
    reveal(pow);
}

proof fn lemma_digits_value_bound(bytes: Seq<u8>)
    ensures
        digits_value(bytes) < pow(256, bytes.len()),
    decreases bytes.len(),
{
    reveal(pow);
    if bytes.len() > 0 {
        lemma_digits_value_bound(bytes.skip(1));
        lemma_pow_step(bytes.len());
    }
}

proof fn lemma_digits_of_value(bytes: Seq<u8>)
    ensures
        digits(digits_value(bytes), bytes.len()) == bytes,
    decreases bytes.len(),
{
    if bytes.len() > 0 {
        let rest = bytes.skip(1);
        lemma_digits_of_value(rest);
        let value = digits_value(bytes);
        assert(value % 256 == bytes[0] as nat);
        assert(value / 256 == digits_value(rest));
        assert(digits(value, bytes.len()) =~= bytes);
    } else {
        assert(digits(digits_value(bytes), 0) =~= bytes);
    }
}

proof fn lemma_value_of_digits(value: nat, n: nat)
    requires
        value < pow(256, n),
    ensures
        digits_value(digits(value, n)) == value,
    decreases n,
{
    reveal(pow);
    if n > 0 {
        lemma_pow_step(n);
        lemma_value_of_digits(value / 256, (n - 1) as nat);
        assert(digits(value, n).skip(1) =~= digits(value / 256, (n - 1) as nat));
    }
}

proof fn lemma_reverse_twice(bytes: Seq<u8>)
    ensures
        bytes.reverse().reverse() == bytes,
        bytes.reverse().len() == bytes.len(),
{
    assert(bytes.reverse().reverse() =~= bytes);
}

/// Reading back the native bytes of a number gives the number.
pub proof fn lemma_native_value_of_bytes(value: nat, n: nat)
    requires
        value < pow(256, n),
    ensures
        native_bytes(value, n).len() == n,
        native_value(native_bytes(value, n)) == value,
{
    lemma_digits_len(value, n);
    lemma_value_of_digits(value, n);
    lemma_reverse_twice(digits(value, n));
}

/// Every sequence of bytes is the native representation of its value.
pub proof fn lemma_native_bytes_of_value(bytes: Seq<u8>)
    ensures
        native_value(bytes) < pow(256, bytes.len()),
        native_bytes(native_value(bytes), bytes.len()) == bytes,
{
    lemma_digits_value_bound(bytes);
    lemma_digits_value_bound(bytes.reverse());
    lemma_digits_of_value(bytes);
    lemma_digits_of_value(bytes.reverse());
    lemma_reverse_twice(bytes);
}

/// A run of zero bytes represents the number zero.
pub proof fn lemma_native_value_of_zeros(bytes: Seq<u8>)
    requires
        forall|i: int| 0 <= i < bytes.len() ==> bytes[i] == 0,
    ensures
        native_value(bytes) == 0,
{
    lemma_digits_value_of_zeros(bytes);
    lemma_digits_value_of_zeros(bytes.reverse());
}

proof fn lemma_digits_value_of_zeros(bytes: Seq<u8>)
    requires
        forall|i: int| 0 <= i < bytes.len() ==> bytes[i] == 0,
    ensures
        digits_value(bytes) == 0,
    decreases bytes.len(),
{
    if bytes.len() > 0 {
        lemma_digits_value_of_zeros(bytes.skip(1));
    }
}

/// Calls [`u16::to_ne_bytes`], which returns the memory representation of an
/// integer in the machine's byte order.
#[verifier::external_body]
fn u16_to_ne_bytes(value: u16) -> (bytes: [u8; 2])
    ensures
        bytes@ == native_bytes(value as nat, 2),
{
    value.to_ne_bytes()
}

/// Returns `true` on a little-endian machine.
fn is_little_endian() -> (little: bool)
    ensures
        little == (endianness() is Little),
{
    let probe = u16_to_ne_bytes(1);
    proof {
        lemma_digits_len(1, 2);
        reveal_with_fuel(digits, 3);
        assert(digits(1, 2) =~= seq![1u8, 0u8]);
        assert(digits(1, 2).reverse() =~= seq![0u8, 1u8]);
    }
    probe[0] == 1
}

/// Returns the `n` native bytes of `value`.
pub fn encode_native(value: u128, n: usize) -> (bytes: Vec<u8>)
    requires
        n <= 16,
    ensures
        bytes@ == native_bytes(value as nat, n as nat),
{
    let mut bytes: Vec<u8> = Vec::new();
    let mut rest: u128 = value;
    let mut i: usize = 0;
    while i < n
        invariant
            i <= n,
            bytes@ + digits(rest as nat, (n - i) as nat) == digits(value as nat, n as nat),
            bytes@.len() == i,
        decreases n - i,
    {
        let ghost before = bytes@;
        bytes.push((rest % 256) as u8);
        proof {
            assert(before + digits(rest as nat, (n - i) as nat) =~= bytes@ + digits(
                (rest / 256) as nat,
                (n - i - 1) as nat,
            ));
        }
        rest = rest / 256;
        i = i + 1;
    }
    assert(bytes@ =~= digits(value as nat, n as nat));
    if is_little_endian() {
        bytes
    } else {
        let mut flipped: Vec<u8> = Vec::new();
        let mut j: usize = 0;
        while j < n
            invariant
                j <= n,
                bytes@.len() == n,
                flipped@ == bytes@.reverse().subrange(0, j as int),
            decreases n - j,
        {
            flipped.push(bytes[n - 1 - j]);
            j = j + 1;
            assert(flipped@ =~= bytes@.reverse().subrange(0, j as int));
        }
        assert(flipped@ =~= bytes@.reverse());
        flipped
    }
}

/// Returns the number that `bytes` represents natively.
pub fn decode_native(bytes: &[u8]) -> (value: u128)
    requires
        bytes@.len() <= 16,
    ensures
        value == native_value(bytes@),
        value < pow(256, bytes@.len()),
{
    let n: usize = bytes.len();
    let little = is_little_endian();
    let ghost ordered = if little {
        bytes@
    } else {
        bytes@.reverse()
    };
    let mut value: u128 = 0;
    let mut i: usize = n;
    assert(ordered.skip(n as int) =~= Seq::<u8>::empty());
    while i > 0
        invariant
            i <= n,
            n == bytes@.len(),
            n <= 16,
            ordered == (if little {
                bytes@
            } else {
                bytes@.reverse()
            }),
            value == digits_value(ordered.skip(i as int)),
        decreases i,
    {
        let digit: u8 = if little {
            bytes[i - 1]
        } else {
            bytes[n - i]
        };
        proof {
            assert(digit == ordered[i - 1]);
            assert(ordered.skip(i - 1).skip(1) =~= ordered.skip(i as int));
            lemma_digits_value_bound(ordered.skip(i - 1));
            lemma_pow_increases(256, (n - i + 1) as nat, 16);
            vstd::layout::unsigned_int_max_values();
            broadcast use vstd::layout::layout_of_primitives;
        }
        value = digit as u128 + 256 * value;
        i = i - 1;
    }
    proof {
        assert(ordered.skip(0) =~= ordered);
        lemma_digits_value_bound(ordered);
    }
    value
}

} // verus!
