//! What the bytes of integers mean: the places of the digits, in the machine's
//! byte order and in two's complement.

use crate::view::Element;
use vstd::arithmetic::div_mod::*;
use vstd::arithmetic::mul::*;
use vstd::arithmetic::power::*;
use vstd::endian::*;
use vstd::prelude::*;

verus! {

/// The value of digits, the last digit taken by itself.
proof fn lemma_value_last(bytes: Seq<u8>)
    requires
        bytes.len() > 0,
    ensures
        crate::native::digits_value(bytes) == crate::native::digits_value(bytes.drop_last())
            + bytes.last() * pow(256, (bytes.len() - 1) as nat),
    decreases bytes.len(),
{
    reveal(pow);
    let n = bytes.len();
    if n == 1 {
        assert(bytes.skip(1) =~= Seq::<u8>::empty());
        assert(bytes.drop_last() =~= Seq::<u8>::empty());
        assert(pow(256, 0) == 1);
    } else {
        let rest = bytes.skip(1);
        lemma_value_last(rest);
        assert(rest.drop_last() =~= bytes.drop_last().skip(1));
        assert(pow(256, (n - 1) as nat) == 256 * pow(256, (n - 2) as nat));
        let p = pow(256, (n - 2) as nat);
        assert(256 * (bytes.last() * p) == bytes.last() * (256 * p)) by (nonlinear_arith);
    }
}

/// The value of digits, least significant first, is the sum of the digits at
/// their places.
proof fn lemma_value_is_sum(bytes: Seq<u8>)
    ensures
        crate::native::digits_value(bytes) == Seq::new(
            bytes.len(),
            |i: int| bytes[i] * pow(256, i as nat),
        ).fold_left(0int, |a: int, b: int| a + b),
    decreases bytes.len(),
{
    let places = Seq::new(bytes.len(), |i: int| bytes[i] * pow(256, i as nat));
    if bytes.len() > 0 {
        let front = bytes.drop_last();
        lemma_value_is_sum(front);
        lemma_value_last(bytes);
        assert(places.drop_last() =~= Seq::new(
            front.len(),
            |i: int| front[i] * pow(256, i as nat),
        ));
    }
}

/// A sum does not depend on the order of what is added.
proof fn lemma_sum_reversed(values: Seq<int>)
    ensures
        values.fold_left(0int, |a: int, b: int| a + b) == values.reverse().fold_left(
            0int,
            |a: int, b: int| a + b,
        ),
{
    let plus = |a: int, b: int| a + b;
    assert(values.to_multiset() =~= values.reverse().to_multiset()) by {
        lemma_reverse_multiset(values);
    }
    vstd::seq_lib::lemma_fold_left_permutation(values, values.reverse(), plus, 0int);
}

proof fn lemma_reverse_multiset(values: Seq<int>)
    ensures
        values.to_multiset() == values.reverse().to_multiset(),
    decreases values.len(),
{
    broadcast use vstd::seq_lib::group_to_multiset_ensures;

    if values.len() == 0 {
        assert(values.reverse() =~= values);
    } else {
        let front = values.drop_last();
        lemma_reverse_multiset(front);
        assert(values =~= front.push(values.last()));
        assert(values.reverse() =~= seq![values.last()] + front.reverse());
        vstd::seq_lib::lemma_multiset_commutative(seq![values.last()], front.reverse());
        assert(seq![values.last()] =~= Seq::empty().push(values.last()));
        assert(values.reverse().to_multiset() =~= values.to_multiset());
    }
}

/// The number that bytes represent natively is the sum of the bytes at their
/// places: the first byte has the lowest place on a little-endian machine and
/// the highest on a big-endian one.
pub proof fn law_native_places(bytes: Seq<u8>)
    ensures
        crate::native::native_value(bytes) == Seq::new(
            bytes.len(),
            |i: int|
                bytes[i] * pow(
                    256,
                    (if endianness() is Little {
                        i
                    } else {
                        bytes.len() - 1 - i
                    }) as nat,
                ),
        ).fold_left(0int, |a: int, b: int| a + b),
{
    let n = bytes.len();
    let places = Seq::new(
        n,
        |i: int|
            bytes[i] * pow(
                256,
                (if endianness() is Little {
                    i
                } else {
                    bytes.len() - 1 - i
                }) as nat,
            ),
    );
    if endianness() is Little {
        lemma_value_is_sum(bytes);
        assert(places =~= Seq::new(n, |i: int| bytes[i] * pow(256, i as nat)));
    } else {
        let turned = bytes.reverse();
        lemma_value_is_sum(turned);
        let low_first = Seq::new(n, |i: int| turned[i] * pow(256, i as nat));
        assert(places.reverse() =~= low_first);
        lemma_sum_reversed(places);
    }
}

/// The digits of a number are what is left of it at their places.
proof fn lemma_digit(value: nat, n: nat, i: int)
    requires
        0 <= i < n,
    ensures
        crate::native::digits(value, n).len() == n,
        crate::native::digits(value, n)[i] as int == (value as int / pow(256, i as nat)) % 256,
    decreases n,
{
    reveal(pow);
    crate::native::lemma_digits_len(value, n);
    lemma_pow_positive(256, i as nat);
    if i == 0 {
        assert(pow(256, 0) == 1);
    } else {
        crate::native::lemma_digits_len(value / 256, (n - 1) as nat);
        lemma_digit(value / 256, (n - 1) as nat, i - 1);
        lemma_pow_positive(256, (i - 1) as nat);
        lemma_div_denominator(value as int, 256, pow(256, (i - 1) as nat));
    }
}

/// Each native byte of a number is the digit at its place.
pub proof fn law_native_digits(value: nat, n: nat, i: int)
    requires
        0 <= i < n,
    ensures
        crate::native::native_bytes(value, n).len() == n,
        crate::native::native_bytes(value, n)[i] as int == (value as int / pow(
            256,
            (if endianness() is Little {
                i
            } else {
                n - 1 - i
            }) as nat,
        )) % 256,
{
    lemma_digit(value, n, i);
    lemma_digit(value, n, n - 1 - i);
}

/// The digits of a negative number are those of its two's complement.
proof fn lemma_complement_digit(value: int, n: nat, k: nat)
    requires
        k < n,
    ensures
        ((value + pow(256, n)) / pow(256, k)) % 256 == (value / pow(256, k)) % 256,
{
    reveal(pow);
    let place = pow(256, k);
    let m = pow(256, (n - k - 1) as nat);
    lemma_pow_positive(256, k);
    lemma_pow_adds(256, k, (n - k) as nat);
    assert(pow(256, (n - k) as nat) == 256 * m);
    assert(pow(256, n) == (256 * m) * place) by (nonlinear_arith)
        requires
            pow(256, n) == place * (256 * m),
    ;
    lemma_hoist_over_denominator(value, 256 * m, place as nat);
    lemma_mod_multiples_vanish(m, value / place, 256);
}

/// A multiple by zero or one turn.
proof fn lemma_turns(difference: int, turn: int)
    requires
        turn > 0,
        difference == 0 || difference == -turn,
    ensures
        difference % turn == 0,
{
    lemma_small_mod(0, turn as nat);
    lemma_mod_sub_multiples_vanish(0, turn);
}

/// The `u8` that bytes represent is the sum of the bytes at their places in
/// the machine's byte order.
pub proof fn law_decoded_u8(bytes: Seq<u8>)
    requires
        bytes.len() == vstd::layout::size_of::<u8>(),
    ensures
        u8::decodes(bytes) == Seq::new(
            vstd::layout::size_of::<u8>(),
            |i: int|
                bytes[i] * pow(
                    256,
                    (if endianness() is Little {
                        i
                    } else {
                        vstd::layout::size_of::<u8>() - 1 - i
                    }) as nat,
                ),
        ).fold_left(0int, |a: int, b: int| a + b),
{
    law_native_places(bytes);
    crate::native::lemma_native_bytes_of_value(bytes);
    crate::integers::lemma_ranges();
    let sum = crate::native::native_value(bytes);
    let places = Seq::new(
        bytes.len(),
        |i: int|
            bytes[i] * pow(
                256,
                (if endianness() is Little {
                    i
                } else {
                    bytes.len() - 1 - i
                }) as nat,
            ),
    );
    let own = Seq::new(
        vstd::layout::size_of::<u8>(),
        |i: int|
            bytes[i] * pow(
                256,
                (if endianness() is Little {
                    i
                } else {
                    vstd::layout::size_of::<u8>() - 1 - i
                }) as nat,
            ),
    );
    assert(places =~= own);
}

/// Each byte of a `u8` is the digit at its place, in the machine's byte order.
pub proof fn law_encoded_u8(value: u8, i: int)
    requires
        0 <= i < vstd::layout::size_of::<u8>(),
    ensures
        value.encodes().len() == vstd::layout::size_of::<u8>(),
        value.encodes()[i] as int == (value as int / pow(
            256,
            (if endianness() is Little {
                i
            } else {
                vstd::layout::size_of::<u8>() - 1 - i
            }) as nat,
        )) % 256,
{
    let n = vstd::layout::size_of::<u8>();
    let k = (if endianness() is Little {
        i
    } else {
        n - 1 - i
    }) as nat;
    crate::integers::lemma_ranges();
    law_native_digits(value as nat, n, i);
}

/// The `u16` that bytes represent is the sum of the bytes at their places in
/// the machine's byte order.
pub proof fn law_decoded_u16(bytes: Seq<u8>)
    requires
        bytes.len() == vstd::layout::size_of::<u16>(),
    ensures
        u16::decodes(bytes) == Seq::new(
            vstd::layout::size_of::<u16>(),
            |i: int|
                bytes[i] * pow(
                    256,
                    (if endianness() is Little {
                        i
                    } else {
                        vstd::layout::size_of::<u16>() - 1 - i
                    }) as nat,
                ),
        ).fold_left(0int, |a: int, b: int| a + b),
{
    law_native_places(bytes);
    crate::native::lemma_native_bytes_of_value(bytes);
    crate::integers::lemma_ranges();
    let sum = crate::native::native_value(bytes);
    let places = Seq::new(
        bytes.len(),
        |i: int|
            bytes[i] * pow(
                256,
                (if endianness() is Little {
                    i
                } else {
                    bytes.len() - 1 - i
                }) as nat,
            ),
    );
    let own = Seq::new(
        vstd::layout::size_of::<u16>(),
        |i: int|
            bytes[i] * pow(
                256,
                (if endianness() is Little {
                    i
                } else {
                    vstd::layout::size_of::<u16>() - 1 - i
                }) as nat,
            ),
    );
    assert(places =~= own);
}

/// Each byte of a `u16` is the digit at its place, in the machine's byte order.
pub proof fn law_encoded_u16(value: u16, i: int)
    requires
        0 <= i < vstd::layout::size_of::<u16>(),
    ensures
        value.encodes().len() == vstd::layout::size_of::<u16>(),
        value.encodes()[i] as int == (value as int / pow(
            256,
            (if endianness() is Little {
                i
            } else {
                vstd::layout::size_of::<u16>() - 1 - i
            }) as nat,
        )) % 256,
{
    let n = vstd::layout::size_of::<u16>();
    let k = (if endianness() is Little {
        i
    } else {
        n - 1 - i
    }) as nat;
    crate::integers::lemma_ranges();
    law_native_digits(value as nat, n, i);
}

/// The `u32` that bytes represent is the sum of the bytes at their places in
/// the machine's byte order.
pub proof fn law_decoded_u32(bytes: Seq<u8>)
    requires
        bytes.len() == vstd::layout::size_of::<u32>(),
    ensures
        u32::decodes(bytes) == Seq::new(
            vstd::layout::size_of::<u32>(),
            |i: int|
                bytes[i] * pow(
                    256,
                    (if endianness() is Little {
                        i
                    } else {
                        vstd::layout::size_of::<u32>() - 1 - i
                    }) as nat,
                ),
        ).fold_left(0int, |a: int, b: int| a + b),
{
    law_native_places(bytes);
    crate::native::lemma_native_bytes_of_value(bytes);
    crate::integers::lemma_ranges();
    let sum = crate::native::native_value(bytes);
    let places = Seq::new(
        bytes.len(),
        |i: int|
            bytes[i] * pow(
                256,
                (if endianness() is Little {
                    i
                } else {
                    bytes.len() - 1 - i
                }) as nat,
            ),
    );
    let own = Seq::new(
        vstd::layout::size_of::<u32>(),
        |i: int|
            bytes[i] * pow(
                256,
                (if endianness() is Little {
                    i
                } else {
                    vstd::layout::size_of::<u32>() - 1 - i
                }) as nat,
            ),
    );
    assert(places =~= own);
}

/// Each byte of a `u32` is the digit at its place, in the machine's byte order.
pub proof fn law_encoded_u32(value: u32, i: int)
    requires
        0 <= i < vstd::layout::size_of::<u32>(),
    ensures
        value.encodes().len() == vstd::layout::size_of::<u32>(),
        value.encodes()[i] as int == (value as int / pow(
            256,
            (if endianness() is Little {
                i
            } else {
                vstd::layout::size_of::<u32>() - 1 - i
            }) as nat,
        )) % 256,
{
    let n = vstd::layout::size_of::<u32>();
    let k = (if endianness() is Little {
        i
    } else {
        n - 1 - i
    }) as nat;
    crate::integers::lemma_ranges();
    law_native_digits(value as nat, n, i);
}

/// The `u64` that bytes represent is the sum of the bytes at their places in
/// the machine's byte order.
pub proof fn law_decoded_u64(bytes: Seq<u8>)
    requires
        bytes.len() == vstd::layout::size_of::<u64>(),
    ensures
        u64::decodes(bytes) == Seq::new(
            vstd::layout::size_of::<u64>(),
            |i: int|
                bytes[i] * pow(
                    256,
                    (if endianness() is Little {
                        i
                    } else {
                        vstd::layout::size_of::<u64>() - 1 - i
                    }) as nat,
                ),
        ).fold_left(0int, |a: int, b: int| a + b),
{
    law_native_places(bytes);
    crate::native::lemma_native_bytes_of_value(bytes);
    crate::integers::lemma_ranges();
    let sum = crate::native::native_value(bytes);
    let places = Seq::new(
        bytes.len(),
        |i: int|
            bytes[i] * pow(
                256,
                (if endianness() is Little {
                    i
                } else {
                    bytes.len() - 1 - i
                }) as nat,
            ),
    );
    let own = Seq::new(
        vstd::layout::size_of::<u64>(),
        |i: int|
            bytes[i] * pow(
                256,
                (if endianness() is Little {
                    i
                } else {
                    vstd::layout::size_of::<u64>() - 1 - i
                }) as nat,
            ),
    );
    assert(places =~= own);
}

/// Each byte of a `u64` is the digit at its place, in the machine's byte order.
pub proof fn law_encoded_u64(value: u64, i: int)
    requires
        0 <= i < vstd::layout::size_of::<u64>(),
    ensures
        value.encodes().len() == vstd::layout::size_of::<u64>(),
        value.encodes()[i] as int == (value as int / pow(
            256,
            (if endianness() is Little {
                i
            } else {
                vstd::layout::size_of::<u64>() - 1 - i
            }) as nat,
        )) % 256,
{
    let n = vstd::layout::size_of::<u64>();
    let k = (if endianness() is Little {
        i
    } else {
        n - 1 - i
    }) as nat;
    crate::integers::lemma_ranges();
    law_native_digits(value as nat, n, i);
}

/// The `u128` that bytes represent is the sum of the bytes at their places in
/// the machine's byte order.
pub proof fn law_decoded_u128(bytes: Seq<u8>)
    requires
        bytes.len() == vstd::layout::size_of::<u128>(),
    ensures
        u128::decodes(bytes) == Seq::new(
            vstd::layout::size_of::<u128>(),
            |i: int|
                bytes[i] * pow(
                    256,
                    (if endianness() is Little {
                        i
                    } else {
                        vstd::layout::size_of::<u128>() - 1 - i
                    }) as nat,
                ),
        ).fold_left(0int, |a: int, b: int| a + b),
{
    law_native_places(bytes);
    crate::native::lemma_native_bytes_of_value(bytes);
    crate::integers::lemma_ranges();
    let sum = crate::native::native_value(bytes);
    let places = Seq::new(
        bytes.len(),
        |i: int|
            bytes[i] * pow(
                256,
                (if endianness() is Little {
                    i
                } else {
                    bytes.len() - 1 - i
                }) as nat,
            ),
    );
    let own = Seq::new(
        vstd::layout::size_of::<u128>(),
        |i: int|
            bytes[i] * pow(
                256,
                (if endianness() is Little {
                    i
                } else {
                    vstd::layout::size_of::<u128>() - 1 - i
                }) as nat,
            ),
    );
    assert(places =~= own);
}

/// Each byte of a `u128` is the digit at its place, in the machine's byte order.
pub proof fn law_encoded_u128(value: u128, i: int)
    requires
        0 <= i < vstd::layout::size_of::<u128>(),
    ensures
        value.encodes().len() == vstd::layout::size_of::<u128>(),
        value.encodes()[i] as int == (value as int / pow(
            256,
            (if endianness() is Little {
                i
            } else {
                vstd::layout::size_of::<u128>() - 1 - i
            }) as nat,
        )) % 256,
{
    let n = vstd::layout::size_of::<u128>();
    let k = (if endianness() is Little {
        i
    } else {
        n - 1 - i
    }) as nat;
    crate::integers::lemma_ranges();
    law_native_digits(value as nat, n, i);
}

/// The `usize` that bytes represent is the sum of the bytes at their places in
/// the machine's byte order.
pub proof fn law_decoded_usize(bytes: Seq<u8>)
    requires
        bytes.len() == vstd::layout::size_of::<usize>(),
    ensures
        usize::decodes(bytes) == Seq::new(
            vstd::layout::size_of::<usize>(),
            |i: int|
                bytes[i] * pow(
                    256,
                    (if endianness() is Little {
                        i
                    } else {
                        vstd::layout::size_of::<usize>() - 1 - i
                    }) as nat,
                ),
        ).fold_left(0int, |a: int, b: int| a + b),
{
    law_native_places(bytes);
    crate::native::lemma_native_bytes_of_value(bytes);
    crate::integers::lemma_ranges();
    let sum = crate::native::native_value(bytes);
    let places = Seq::new(
        bytes.len(),
        |i: int|
            bytes[i] * pow(
                256,
                (if endianness() is Little {
                    i
                } else {
                    bytes.len() - 1 - i
                }) as nat,
            ),
    );
    let own = Seq::new(
        vstd::layout::size_of::<usize>(),
        |i: int|
            bytes[i] * pow(
                256,
                (if endianness() is Little {
                    i
                } else {
                    vstd::layout::size_of::<usize>() - 1 - i
                }) as nat,
            ),
    );
    assert(places =~= own);
}

/// Each byte of a `usize` is the digit at its place, in the machine's byte order.
pub proof fn law_encoded_usize(value: usize, i: int)
    requires
        0 <= i < vstd::layout::size_of::<usize>(),
    ensures
        value.encodes().len() == vstd::layout::size_of::<usize>(),
        value.encodes()[i] as int == (value as int / pow(
            256,
            (if endianness() is Little {
                i
            } else {
                vstd::layout::size_of::<usize>() - 1 - i
            }) as nat,
        )) % 256,
{
    let n = vstd::layout::size_of::<usize>();
    let k = (if endianness() is Little {
        i
    } else {
        n - 1 - i
    }) as nat;
    crate::integers::lemma_ranges();
    law_native_digits(value as nat, n, i);
}

/// The `i8` that bytes represent is, in two's complement, the sum of the bytes
/// at their places in the machine's byte order.
pub proof fn law_decoded_i8(bytes: Seq<u8>)
    requires
        bytes.len() == vstd::layout::size_of::<i8>(),
    ensures
        (i8::decodes(bytes) - Seq::new(
            vstd::layout::size_of::<i8>(),
            |i: int|
                bytes[i] * pow(
                    256,
                    (if endianness() is Little {
                        i
                    } else {
                        vstd::layout::size_of::<i8>() - 1 - i
                    }) as nat,
                ),
        ).fold_left(0int, |a: int, b: int| a + b)) % pow(256, vstd::layout::size_of::<i8>()) == 0,
{
    law_native_places(bytes);
    crate::native::lemma_native_bytes_of_value(bytes);
    crate::integers::lemma_ranges();
    let sum = crate::native::native_value(bytes);
    let places = Seq::new(
        bytes.len(),
        |i: int|
            bytes[i] * pow(
                256,
                (if endianness() is Little {
                    i
                } else {
                    bytes.len() - 1 - i
                }) as nat,
            ),
    );
    let own = Seq::new(
        vstd::layout::size_of::<i8>(),
        |i: int|
            bytes[i] * pow(
                256,
                (if endianness() is Little {
                    i
                } else {
                    vstd::layout::size_of::<i8>() - 1 - i
                }) as nat,
            ),
    );
    assert(places =~= own);
    lemma_turns(i8::decodes(bytes) - sum, pow(256, vstd::layout::size_of::<i8>()));
}

/// Each byte of a `i8` is the digit at its place, in the machine's byte order.
pub proof fn law_encoded_i8(value: i8, i: int)
    requires
        0 <= i < vstd::layout::size_of::<i8>(),
    ensures
        value.encodes().len() == vstd::layout::size_of::<i8>(),
        value.encodes()[i] as int == (value as int / pow(
            256,
            (if endianness() is Little {
                i
            } else {
                vstd::layout::size_of::<i8>() - 1 - i
            }) as nat,
        )) % 256,
{
    let n = vstd::layout::size_of::<i8>();
    let k = (if endianness() is Little {
        i
    } else {
        n - 1 - i
    }) as nat;
    crate::integers::lemma_ranges();
    law_native_digits(crate::integers::complement(value as int, n), n, i);
    lemma_complement_digit(value as int, n, k);
}

/// The `i16` that bytes represent is, in two's complement, the sum of the bytes
/// at their places in the machine's byte order.
pub proof fn law_decoded_i16(bytes: Seq<u8>)
    requires
        bytes.len() == vstd::layout::size_of::<i16>(),
    ensures
        (i16::decodes(bytes) - Seq::new(
            vstd::layout::size_of::<i16>(),
            |i: int|
                bytes[i] * pow(
                    256,
                    (if endianness() is Little {
                        i
                    } else {
                        vstd::layout::size_of::<i16>() - 1 - i
                    }) as nat,
                ),
        ).fold_left(0int, |a: int, b: int| a + b)) % pow(256, vstd::layout::size_of::<i16>()) == 0,
{
    law_native_places(bytes);
    crate::native::lemma_native_bytes_of_value(bytes);
    crate::integers::lemma_ranges();
    let sum = crate::native::native_value(bytes);
    let places = Seq::new(
        bytes.len(),
        |i: int|
            bytes[i] * pow(
                256,
                (if endianness() is Little {
                    i
                } else {
                    bytes.len() - 1 - i
                }) as nat,
            ),
    );
    let own = Seq::new(
        vstd::layout::size_of::<i16>(),
        |i: int|
            bytes[i] * pow(
                256,
                (if endianness() is Little {
                    i
                } else {
                    vstd::layout::size_of::<i16>() - 1 - i
                }) as nat,
            ),
    );
    assert(places =~= own);
    lemma_turns(i16::decodes(bytes) - sum, pow(256, vstd::layout::size_of::<i16>()));
}

/// Each byte of a `i16` is the digit at its place, in the machine's byte order.
pub proof fn law_encoded_i16(value: i16, i: int)
    requires
        0 <= i < vstd::layout::size_of::<i16>(),
    ensures
        value.encodes().len() == vstd::layout::size_of::<i16>(),
        value.encodes()[i] as int == (value as int / pow(
            256,
            (if endianness() is Little {
                i
            } else {
                vstd::layout::size_of::<i16>() - 1 - i
            }) as nat,
        )) % 256,
{
    let n = vstd::layout::size_of::<i16>();
    let k = (if endianness() is Little {
        i
    } else {
        n - 1 - i
    }) as nat;
    crate::integers::lemma_ranges();
    law_native_digits(crate::integers::complement(value as int, n), n, i);
    lemma_complement_digit(value as int, n, k);
}

/// The `i32` that bytes represent is, in two's complement, the sum of the bytes
/// at their places in the machine's byte order.
pub proof fn law_decoded_i32(bytes: Seq<u8>)
    requires
        bytes.len() == vstd::layout::size_of::<i32>(),
    ensures
        (i32::decodes(bytes) - Seq::new(
            vstd::layout::size_of::<i32>(),
            |i: int|
                bytes[i] * pow(
                    256,
                    (if endianness() is Little {
                        i
                    } else {
                        vstd::layout::size_of::<i32>() - 1 - i
                    }) as nat,
                ),
        ).fold_left(0int, |a: int, b: int| a + b)) % pow(256, vstd::layout::size_of::<i32>()) == 0,
{
    law_native_places(bytes);
    crate::native::lemma_native_bytes_of_value(bytes);
    crate::integers::lemma_ranges();
    let sum = crate::native::native_value(bytes);
    let places = Seq::new(
        bytes.len(),
        |i: int|
            bytes[i] * pow(
                256,
                (if endianness() is Little {
                    i
                } else {
                    bytes.len() - 1 - i
                }) as nat,
            ),
    );
    let own = Seq::new(
        vstd::layout::size_of::<i32>(),
        |i: int|
            bytes[i] * pow(
                256,
                (if endianness() is Little {
                    i
                } else {
                    vstd::layout::size_of::<i32>() - 1 - i
                }) as nat,
            ),
    );
    assert(places =~= own);
    lemma_turns(i32::decodes(bytes) - sum, pow(256, vstd::layout::size_of::<i32>()));
}

/// Each byte of a `i32` is the digit at its place, in the machine's byte order.
pub proof fn law_encoded_i32(value: i32, i: int)
    requires
        0 <= i < vstd::layout::size_of::<i32>(),
    ensures
        value.encodes().len() == vstd::layout::size_of::<i32>(),
        value.encodes()[i] as int == (value as int / pow(
            256,
            (if endianness() is Little {
                i
            } else {
                vstd::layout::size_of::<i32>() - 1 - i
            }) as nat,
        )) % 256,
{
    let n = vstd::layout::size_of::<i32>();
    let k = (if endianness() is Little {
        i
    } else {
        n - 1 - i
    }) as nat;
    crate::integers::lemma_ranges();
    law_native_digits(crate::integers::complement(value as int, n), n, i);
    lemma_complement_digit(value as int, n, k);
}

/// The `i64` that bytes represent is, in two's complement, the sum of the bytes
/// at their places in the machine's byte order.
pub proof fn law_decoded_i64(bytes: Seq<u8>)
    requires
        bytes.len() == vstd::layout::size_of::<i64>(),
    ensures
        (i64::decodes(bytes) - Seq::new(
            vstd::layout::size_of::<i64>(),
            |i: int|
                bytes[i] * pow(
                    256,
                    (if endianness() is Little {
                        i
                    } else {
                        vstd::layout::size_of::<i64>() - 1 - i
                    }) as nat,
                ),
        ).fold_left(0int, |a: int, b: int| a + b)) % pow(256, vstd::layout::size_of::<i64>()) == 0,
{
    law_native_places(bytes);
    crate::native::lemma_native_bytes_of_value(bytes);
    crate::integers::lemma_ranges();
    let sum = crate::native::native_value(bytes);
    let places = Seq::new(
        bytes.len(),
        |i: int|
            bytes[i] * pow(
                256,
                (if endianness() is Little {
                    i
                } else {
                    bytes.len() - 1 - i
                }) as nat,
            ),
    );
    let own = Seq::new(
        vstd::layout::size_of::<i64>(),
        |i: int|
            bytes[i] * pow(
                256,
                (if endianness() is Little {
                    i
                } else {
                    vstd::layout::size_of::<i64>() - 1 - i
                }) as nat,
            ),
    );
    assert(places =~= own);
    lemma_turns(i64::decodes(bytes) - sum, pow(256, vstd::layout::size_of::<i64>()));
}

/// Each byte of a `i64` is the digit at its place, in the machine's byte order.
pub proof fn law_encoded_i64(value: i64, i: int)
    requires
        0 <= i < vstd::layout::size_of::<i64>(),
    ensures
        value.encodes().len() == vstd::layout::size_of::<i64>(),
        value.encodes()[i] as int == (value as int / pow(
            256,
            (if endianness() is Little {
                i
            } else {
                vstd::layout::size_of::<i64>() - 1 - i
            }) as nat,
        )) % 256,
{
    let n = vstd::layout::size_of::<i64>();
    let k = (if endianness() is Little {
        i
    } else {
        n - 1 - i
    }) as nat;
    crate::integers::lemma_ranges();
    law_native_digits(crate::integers::complement(value as int, n), n, i);
    lemma_complement_digit(value as int, n, k);
}

/// The `i128` that bytes represent is, in two's complement, the sum of the bytes
/// at their places in the machine's byte order.
pub proof fn law_decoded_i128(bytes: Seq<u8>)
    requires
        bytes.len() == vstd::layout::size_of::<i128>(),
    ensures
        (i128::decodes(bytes) - Seq::new(
            vstd::layout::size_of::<i128>(),
            |i: int|
                bytes[i] * pow(
                    256,
                    (if endianness() is Little {
                        i
                    } else {
                        vstd::layout::size_of::<i128>() - 1 - i
                    }) as nat,
                ),
        ).fold_left(0int, |a: int, b: int| a + b)) % pow(256, vstd::layout::size_of::<i128>()) == 0,
{
    law_native_places(bytes);
    crate::native::lemma_native_bytes_of_value(bytes);
    crate::integers::lemma_ranges();
    let sum = crate::native::native_value(bytes);
    let places = Seq::new(
        bytes.len(),
        |i: int|
            bytes[i] * pow(
                256,
                (if endianness() is Little {
                    i
                } else {
                    bytes.len() - 1 - i
                }) as nat,
            ),
    );
    let own = Seq::new(
        vstd::layout::size_of::<i128>(),
        |i: int|
            bytes[i] * pow(
                256,
                (if endianness() is Little {
                    i
                } else {
                    vstd::layout::size_of::<i128>() - 1 - i
                }) as nat,
            ),
    );
    assert(places =~= own);
    lemma_turns(i128::decodes(bytes) - sum, pow(256, vstd::layout::size_of::<i128>()));
}

/// Each byte of a `i128` is the digit at its place, in the machine's byte order.
pub proof fn law_encoded_i128(value: i128, i: int)
    requires
        0 <= i < vstd::layout::size_of::<i128>(),
    ensures
        value.encodes().len() == vstd::layout::size_of::<i128>(),
        value.encodes()[i] as int == (value as int / pow(
            256,
            (if endianness() is Little {
                i
            } else {
                vstd::layout::size_of::<i128>() - 1 - i
            }) as nat,
        )) % 256,
{
    let n = vstd::layout::size_of::<i128>();
    let k = (if endianness() is Little {
        i
    } else {
        n - 1 - i
    }) as nat;
    crate::integers::lemma_ranges();
    law_native_digits(crate::integers::complement(value as int, n), n, i);
    lemma_complement_digit(value as int, n, k);
}

/// The `isize` that bytes represent is, in two's complement, the sum of the bytes
/// at their places in the machine's byte order.
pub proof fn law_decoded_isize(bytes: Seq<u8>)
    requires
        bytes.len() == vstd::layout::size_of::<isize>(),
    ensures
        (isize::decodes(bytes) - Seq::new(
            vstd::layout::size_of::<isize>(),
            |i: int|
                bytes[i] * pow(
                    256,
                    (if endianness() is Little {
                        i
                    } else {
                        vstd::layout::size_of::<isize>() - 1 - i
                    }) as nat,
                ),
        ).fold_left(0int, |a: int, b: int| a + b)) % pow(256, vstd::layout::size_of::<isize>()) == 0,
{
    law_native_places(bytes);
    crate::native::lemma_native_bytes_of_value(bytes);
    crate::integers::lemma_ranges();
    let sum = crate::native::native_value(bytes);
    let places = Seq::new(
        bytes.len(),
        |i: int|
            bytes[i] * pow(
                256,
                (if endianness() is Little {
                    i
                } else {
                    bytes.len() - 1 - i
                }) as nat,
            ),
    );
    let own = Seq::new(
        vstd::layout::size_of::<isize>(),
        |i: int|
            bytes[i] * pow(
                256,
                (if endianness() is Little {
                    i
                } else {
                    vstd::layout::size_of::<isize>() - 1 - i
                }) as nat,
            ),
    );
    assert(places =~= own);
    lemma_turns(isize::decodes(bytes) - sum, pow(256, vstd::layout::size_of::<isize>()));
}

/// Each byte of a `isize` is the digit at its place, in the machine's byte order.
pub proof fn law_encoded_isize(value: isize, i: int)
    requires
        0 <= i < vstd::layout::size_of::<isize>(),
    ensures
        value.encodes().len() == vstd::layout::size_of::<isize>(),
        value.encodes()[i] as int == (value as int / pow(
            256,
            (if endianness() is Little {
                i
            } else {
                vstd::layout::size_of::<isize>() - 1 - i
            }) as nat,
        )) % 256,
{
    let n = vstd::layout::size_of::<isize>();
    let k = (if endianness() is Little {
        i
    } else {
        n - 1 - i
    }) as nat;
    crate::integers::lemma_ranges();
    law_native_digits(crate::integers::complement(value as int, n), n, i);
    lemma_complement_digit(value as int, n, k);
}

} // verus!
