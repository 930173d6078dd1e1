//! The integers as elements: native byte order, two's complement.

use crate::native::{decode_native, encode_native};
use crate::view::Element;
use vstd::arithmetic::power::*;
use vstd::prelude::*;

verus! {

/// The two's complement of `value` in `size` bytes, as an unsigned number.
pub open spec fn complement(value: int, size: nat) -> nat {
    (if value < 0 {
        value + pow(256, size)
    } else {
        value
    }) as nat
}

/// The signed number whose two's complement in `size` bytes is `value`, where
/// `max` is the largest signed number of that size.
pub open spec fn signed(value: nat, size: nat, max: int) -> int {
    if value > max {
        value - pow(256, size)
    } else {
        value as int
    }
}

/// The number of values that each integer type has.
pub proof fn lemma_ranges()
    ensures
        pow(256, vstd::layout::size_of::<u8>()) == u8::MAX + 1,
        pow(256, vstd::layout::size_of::<u16>()) == u16::MAX + 1,
        pow(256, vstd::layout::size_of::<u32>()) == u32::MAX + 1,
        pow(256, vstd::layout::size_of::<u64>()) == u64::MAX + 1,
        pow(256, vstd::layout::size_of::<u128>()) == u128::MAX + 1,
        pow(256, vstd::layout::size_of::<usize>()) == usize::MAX + 1,
        vstd::layout::size_of::<i8>() == vstd::layout::size_of::<u8>() == 1,
        vstd::layout::size_of::<i16>() == vstd::layout::size_of::<u16>() == 2,
        vstd::layout::size_of::<i32>() == vstd::layout::size_of::<u32>() == 4,
        vstd::layout::size_of::<i64>() == vstd::layout::size_of::<u64>() == 8,
        vstd::layout::size_of::<i128>() == vstd::layout::size_of::<u128>() == 16,
        vstd::layout::size_of::<isize>() == vstd::layout::size_of::<usize>(),
        1 <= vstd::layout::size_of::<usize>() <= 16,
        isize::MAX - isize::MIN == usize::MAX,
        isize::MIN == -isize::MAX - 1,
{
    broadcast use vstd::layout::layout_of_primitives;

    vstd::layout::unsigned_int_max_values();
}

impl Element for u8 {
    open spec fn decodes(bytes: Seq<u8>) -> Self {
        crate::native::native_value(bytes) as u8
    }

    open spec fn encodes(self) -> Seq<u8> {
        crate::native::native_bytes(self as nat, crate::view::elem_size::<u8>())
    }

    open spec fn type_label() -> Seq<char> {
        "u8"@
    }

    proof fn lemma_size() {
        lemma_ranges();
    }

    proof fn lemma_decode_encoded(self) {
        lemma_ranges();
        crate::native::lemma_native_value_of_bytes(self as nat, crate::view::elem_size::<u8>());
    }

    proof fn lemma_encode_decoded(bytes: Seq<u8>) {
        lemma_ranges();
        crate::native::lemma_native_bytes_of_value(bytes);
    }

    fn label() -> (text: &'static str) {
        "u8"
    }

    fn decode(bytes: &[u8]) -> Self {
        proof {
            lemma_ranges();
        }
        decode_native(bytes) as u8
    }

    fn encode(self) -> Vec<u8> {
        proof {
            lemma_ranges();
        }
        encode_native(self as u128, core::mem::size_of::<u8>())
    }
}

impl Element for u16 {
    open spec fn decodes(bytes: Seq<u8>) -> Self {
        crate::native::native_value(bytes) as u16
    }

    open spec fn encodes(self) -> Seq<u8> {
        crate::native::native_bytes(self as nat, crate::view::elem_size::<u16>())
    }

    open spec fn type_label() -> Seq<char> {
        "u16"@
    }

    proof fn lemma_size() {
        lemma_ranges();
    }

    proof fn lemma_decode_encoded(self) {
        lemma_ranges();
        crate::native::lemma_native_value_of_bytes(self as nat, crate::view::elem_size::<u16>());
    }

    proof fn lemma_encode_decoded(bytes: Seq<u8>) {
        lemma_ranges();
        crate::native::lemma_native_bytes_of_value(bytes);
    }

    fn label() -> (text: &'static str) {
        "u16"
    }

    fn decode(bytes: &[u8]) -> Self {
        proof {
            lemma_ranges();
        }
        decode_native(bytes) as u16
    }

    fn encode(self) -> Vec<u8> {
        proof {
            lemma_ranges();
        }
        encode_native(self as u128, core::mem::size_of::<u16>())
    }
}

impl Element for u32 {
    open spec fn decodes(bytes: Seq<u8>) -> Self {
        crate::native::native_value(bytes) as u32
    }

    open spec fn encodes(self) -> Seq<u8> {
        crate::native::native_bytes(self as nat, crate::view::elem_size::<u32>())
    }

    open spec fn type_label() -> Seq<char> {
        "u32"@
    }

    proof fn lemma_size() {
        lemma_ranges();
    }

    proof fn lemma_decode_encoded(self) {
        lemma_ranges();
        crate::native::lemma_native_value_of_bytes(self as nat, crate::view::elem_size::<u32>());
    }

    proof fn lemma_encode_decoded(bytes: Seq<u8>) {
        lemma_ranges();
        crate::native::lemma_native_bytes_of_value(bytes);
    }

    fn label() -> (text: &'static str) {
        "u32"
    }

    fn decode(bytes: &[u8]) -> Self {
        proof {
            lemma_ranges();
        }
        decode_native(bytes) as u32
    }

    fn encode(self) -> Vec<u8> {
        proof {
            lemma_ranges();
        }
        encode_native(self as u128, core::mem::size_of::<u32>())
    }
}

impl Element for u64 {
    open spec fn decodes(bytes: Seq<u8>) -> Self {
        crate::native::native_value(bytes) as u64
    }

    open spec fn encodes(self) -> Seq<u8> {
        crate::native::native_bytes(self as nat, crate::view::elem_size::<u64>())
    }

    open spec fn type_label() -> Seq<char> {
        "u64"@
    }

    proof fn lemma_size() {
        lemma_ranges();
    }

    proof fn lemma_decode_encoded(self) {
        lemma_ranges();
        crate::native::lemma_native_value_of_bytes(self as nat, crate::view::elem_size::<u64>());
    }

    proof fn lemma_encode_decoded(bytes: Seq<u8>) {
        lemma_ranges();
        crate::native::lemma_native_bytes_of_value(bytes);
    }

    fn label() -> (text: &'static str) {
        "u64"
    }

    fn decode(bytes: &[u8]) -> Self {
        proof {
            lemma_ranges();
        }
        decode_native(bytes) as u64
    }

    fn encode(self) -> Vec<u8> {
        proof {
            lemma_ranges();
        }
        encode_native(self as u128, core::mem::size_of::<u64>())
    }
}

impl Element for u128 {
    open spec fn decodes(bytes: Seq<u8>) -> Self {
        crate::native::native_value(bytes) as u128
    }

    open spec fn encodes(self) -> Seq<u8> {
        crate::native::native_bytes(self as nat, crate::view::elem_size::<u128>())
    }

    open spec fn type_label() -> Seq<char> {
        "u128"@
    }

    proof fn lemma_size() {
        lemma_ranges();
    }

    proof fn lemma_decode_encoded(self) {
        lemma_ranges();
        crate::native::lemma_native_value_of_bytes(self as nat, crate::view::elem_size::<u128>());
    }

    proof fn lemma_encode_decoded(bytes: Seq<u8>) {
        lemma_ranges();
        crate::native::lemma_native_bytes_of_value(bytes);
    }

    fn label() -> (text: &'static str) {
        "u128"
    }

    fn decode(bytes: &[u8]) -> Self {
        proof {
            lemma_ranges();
        }
        decode_native(bytes) as u128
    }

    fn encode(self) -> Vec<u8> {
        proof {
            lemma_ranges();
        }
        encode_native(self as u128, core::mem::size_of::<u128>())
    }
}

impl Element for usize {
    open spec fn decodes(bytes: Seq<u8>) -> Self {
        crate::native::native_value(bytes) as usize
    }

    open spec fn encodes(self) -> Seq<u8> {
        crate::native::native_bytes(self as nat, crate::view::elem_size::<usize>())
    }

    open spec fn type_label() -> Seq<char> {
        "usize"@
    }

    proof fn lemma_size() {
        lemma_ranges();
    }

    proof fn lemma_decode_encoded(self) {
        lemma_ranges();
        crate::native::lemma_native_value_of_bytes(self as nat, crate::view::elem_size::<usize>());
    }

    proof fn lemma_encode_decoded(bytes: Seq<u8>) {
        lemma_ranges();
        crate::native::lemma_native_bytes_of_value(bytes);
    }

    fn label() -> (text: &'static str) {
        "usize"
    }

    fn decode(bytes: &[u8]) -> Self {
        proof {
            lemma_ranges();
        }
        decode_native(bytes) as usize
    }

    fn encode(self) -> Vec<u8> {
        proof {
            lemma_ranges();
        }
        encode_native(self as u128, core::mem::size_of::<usize>())
    }
}

impl Element for i8 {
    open spec fn decodes(bytes: Seq<u8>) -> Self {
        signed(
            crate::native::native_value(bytes),
            crate::view::elem_size::<i8>(),
            i8::MAX as int,
        ) as i8
    }

    open spec fn encodes(self) -> Seq<u8> {
        crate::native::native_bytes(
            complement(self as int, crate::view::elem_size::<i8>()),
            crate::view::elem_size::<i8>(),
        )
    }

    open spec fn type_label() -> Seq<char> {
        "i8"@
    }

    proof fn lemma_size() {
        lemma_ranges();
    }

    proof fn lemma_decode_encoded(self) {
        lemma_ranges();
        crate::native::lemma_native_value_of_bytes(
            complement(self as int, crate::view::elem_size::<i8>()),
            crate::view::elem_size::<i8>(),
        );
    }

    proof fn lemma_encode_decoded(bytes: Seq<u8>) {
        lemma_ranges();
        crate::native::lemma_native_bytes_of_value(bytes);
    }

    fn label() -> (text: &'static str) {
        "i8"
    }

    fn decode(bytes: &[u8]) -> Self {
        proof {
            lemma_ranges();
        }
        let value: u8 = decode_native(bytes) as u8;
        if value <= i8::MAX as u8 {
            value as i8
        } else {
            -((u8::MAX - value) as i8) - 1
        }
    }

    fn encode(self) -> Vec<u8> {
        proof {
            lemma_ranges();
        }
        let value: u8 = if self >= 0 {
            self as u8
        } else {
            u8::MAX - (-(self + 1)) as u8
        };
        encode_native(value as u128, core::mem::size_of::<i8>())
    }
}

impl Element for i16 {
    open spec fn decodes(bytes: Seq<u8>) -> Self {
        signed(
            crate::native::native_value(bytes),
            crate::view::elem_size::<i16>(),
            i16::MAX as int,
        ) as i16
    }

    open spec fn encodes(self) -> Seq<u8> {
        crate::native::native_bytes(
            complement(self as int, crate::view::elem_size::<i16>()),
            crate::view::elem_size::<i16>(),
        )
    }

    open spec fn type_label() -> Seq<char> {
        "i16"@
    }

    proof fn lemma_size() {
        lemma_ranges();
    }

    proof fn lemma_decode_encoded(self) {
        lemma_ranges();
        crate::native::lemma_native_value_of_bytes(
            complement(self as int, crate::view::elem_size::<i16>()),
            crate::view::elem_size::<i16>(),
        );
    }

    proof fn lemma_encode_decoded(bytes: Seq<u8>) {
        lemma_ranges();
        crate::native::lemma_native_bytes_of_value(bytes);
    }

    fn label() -> (text: &'static str) {
        "i16"
    }

    fn decode(bytes: &[u8]) -> Self {
        proof {
            lemma_ranges();
        }
        let value: u16 = decode_native(bytes) as u16;
        if value <= i16::MAX as u16 {
            value as i16
        } else {
            -((u16::MAX - value) as i16) - 1
        }
    }

    fn encode(self) -> Vec<u8> {
        proof {
            lemma_ranges();
        }
        let value: u16 = if self >= 0 {
            self as u16
        } else {
            u16::MAX - (-(self + 1)) as u16
        };
        encode_native(value as u128, core::mem::size_of::<i16>())
    }
}

impl Element for i32 {
    open spec fn decodes(bytes: Seq<u8>) -> Self {
        signed(
            crate::native::native_value(bytes),
            crate::view::elem_size::<i32>(),
            i32::MAX as int,
        ) as i32
    }

    open spec fn encodes(self) -> Seq<u8> {
        crate::native::native_bytes(
            complement(self as int, crate::view::elem_size::<i32>()),
            crate::view::elem_size::<i32>(),
        )
    }

    open spec fn type_label() -> Seq<char> {
        "i32"@
    }

    proof fn lemma_size() {
        lemma_ranges();
    }

    proof fn lemma_decode_encoded(self) {
        lemma_ranges();
        crate::native::lemma_native_value_of_bytes(
            complement(self as int, crate::view::elem_size::<i32>()),
            crate::view::elem_size::<i32>(),
        );
    }

    proof fn lemma_encode_decoded(bytes: Seq<u8>) {
        lemma_ranges();
        crate::native::lemma_native_bytes_of_value(bytes);
    }

    fn label() -> (text: &'static str) {
        "i32"
    }

    fn decode(bytes: &[u8]) -> Self {
        proof {
            lemma_ranges();
        }
        let value: u32 = decode_native(bytes) as u32;
        if value <= i32::MAX as u32 {
            value as i32
        } else {
            -((u32::MAX - value) as i32) - 1
        }
    }

    fn encode(self) -> Vec<u8> {
        proof {
            lemma_ranges();
        }
        let value: u32 = if self >= 0 {
            self as u32
        } else {
            u32::MAX - (-(self + 1)) as u32
        };
        encode_native(value as u128, core::mem::size_of::<i32>())
    }
}

impl Element for i64 {
    open spec fn decodes(bytes: Seq<u8>) -> Self {
        signed(
            crate::native::native_value(bytes),
            crate::view::elem_size::<i64>(),
            i64::MAX as int,
        ) as i64
    }

    open spec fn encodes(self) -> Seq<u8> {
        crate::native::native_bytes(
            complement(self as int, crate::view::elem_size::<i64>()),
            crate::view::elem_size::<i64>(),
        )
    }

    open spec fn type_label() -> Seq<char> {
        "i64"@
    }

    proof fn lemma_size() {
        lemma_ranges();
    }

    proof fn lemma_decode_encoded(self) {
        lemma_ranges();
        crate::native::lemma_native_value_of_bytes(
            complement(self as int, crate::view::elem_size::<i64>()),
            crate::view::elem_size::<i64>(),
        );
    }

    proof fn lemma_encode_decoded(bytes: Seq<u8>) {
        lemma_ranges();
        crate::native::lemma_native_bytes_of_value(bytes);
    }

    fn label() -> (text: &'static str) {
        "i64"
    }

    fn decode(bytes: &[u8]) -> Self {
        proof {
            lemma_ranges();
        }
        let value: u64 = decode_native(bytes) as u64;
        if value <= i64::MAX as u64 {
            value as i64
        } else {
            -((u64::MAX - value) as i64) - 1
        }
    }

    fn encode(self) -> Vec<u8> {
        proof {
            lemma_ranges();
        }
        let value: u64 = if self >= 0 {
            self as u64
        } else {
            u64::MAX - (-(self + 1)) as u64
        };
        encode_native(value as u128, core::mem::size_of::<i64>())
    }
}

impl Element for i128 {
    open spec fn decodes(bytes: Seq<u8>) -> Self {
        signed(
            crate::native::native_value(bytes),
            crate::view::elem_size::<i128>(),
            i128::MAX as int,
        ) as i128
    }

    open spec fn encodes(self) -> Seq<u8> {
        crate::native::native_bytes(
            complement(self as int, crate::view::elem_size::<i128>()),
            crate::view::elem_size::<i128>(),
        )
    }

    open spec fn type_label() -> Seq<char> {
        "i128"@
    }

    proof fn lemma_size() {
        lemma_ranges();
    }

    proof fn lemma_decode_encoded(self) {
        lemma_ranges();
        crate::native::lemma_native_value_of_bytes(
            complement(self as int, crate::view::elem_size::<i128>()),
            crate::view::elem_size::<i128>(),
        );
    }

    proof fn lemma_encode_decoded(bytes: Seq<u8>) {
        lemma_ranges();
        crate::native::lemma_native_bytes_of_value(bytes);
    }

    fn label() -> (text: &'static str) {
        "i128"
    }

    fn decode(bytes: &[u8]) -> Self {
        proof {
            lemma_ranges();
        }
        let value: u128 = decode_native(bytes) as u128;
        if value <= i128::MAX as u128 {
            value as i128
        } else {
            -((u128::MAX - value) as i128) - 1
        }
    }

    fn encode(self) -> Vec<u8> {
        proof {
            lemma_ranges();
        }
        let value: u128 = if self >= 0 {
            self as u128
        } else {
            u128::MAX - (-(self + 1)) as u128
        };
        encode_native(value as u128, core::mem::size_of::<i128>())
    }
}

impl Element for isize {
    open spec fn decodes(bytes: Seq<u8>) -> Self {
        signed(
            crate::native::native_value(bytes),
            crate::view::elem_size::<isize>(),
            isize::MAX as int,
        ) as isize
    }

    open spec fn encodes(self) -> Seq<u8> {
        crate::native::native_bytes(
            complement(self as int, crate::view::elem_size::<isize>()),
            crate::view::elem_size::<isize>(),
        )
    }

    open spec fn type_label() -> Seq<char> {
        "isize"@
    }

    proof fn lemma_size() {
        lemma_ranges();
    }

    proof fn lemma_decode_encoded(self) {
        lemma_ranges();
        crate::native::lemma_native_value_of_bytes(
            complement(self as int, crate::view::elem_size::<isize>()),
            crate::view::elem_size::<isize>(),
        );
    }

    proof fn lemma_encode_decoded(bytes: Seq<u8>) {
        lemma_ranges();
        crate::native::lemma_native_bytes_of_value(bytes);
    }

    fn label() -> (text: &'static str) {
        "isize"
    }

    fn decode(bytes: &[u8]) -> Self {
        proof {
            lemma_ranges();
        }
        let value: usize = decode_native(bytes) as usize;
        if value <= isize::MAX as usize {
            value as isize
        } else {
            -((usize::MAX - value) as isize) - 1
        }
    }

    fn encode(self) -> Vec<u8> {
        proof {
            lemma_ranges();
        }
        let value: usize = if self >= 0 {
            self as usize
        } else {
            usize::MAX - (-(self + 1)) as usize
        };
        encode_native(value as u128, core::mem::size_of::<isize>())
    }
}

/// In every integer type a run of zero bytes is the number zero.
pub proof fn law_zero_bytes_are_zero(bytes: Seq<u8>)
    requires
        forall|i: int| 0 <= i < bytes.len() ==> bytes[i] == 0,
    ensures
        <u8 as Element>::decodes(bytes) == 0,
        <i8 as Element>::decodes(bytes) == 0,
        <u16 as Element>::decodes(bytes) == 0,
        <i16 as Element>::decodes(bytes) == 0,
        <u32 as Element>::decodes(bytes) == 0,
        <i32 as Element>::decodes(bytes) == 0,
        <u64 as Element>::decodes(bytes) == 0,
        <i64 as Element>::decodes(bytes) == 0,
        <u128 as Element>::decodes(bytes) == 0,
        <i128 as Element>::decodes(bytes) == 0,
        <usize as Element>::decodes(bytes) == 0,
        <isize as Element>::decodes(bytes) == 0,
{
    crate::native::lemma_native_value_of_zeros(bytes);
}

} // verus!
