//! How the element-wise kernels belong together.

use std::ops::{Add, Mul, Sub};
use vstd::prelude::*;
use vstd::std_specs::ops::*;

verus! {

/// `out` is what [`kernel::add`](crate::kernel::add) writes for `a` and `b`.
pub open spec fn added<T: Add<Output = T>>(a: Seq<T>, b: Seq<T>, out: Seq<T>) -> bool {
    &&& a.len() == b.len() == out.len()
    &&& forall|i: int| 0 <= i < a.len() ==> (#[trigger] a[i]).add_req(b[i])
    &&& forall|i: int| 0 <= i < a.len() ==> #[trigger] out[i] == a[i].add_spec(b[i])
}

/// `out` is what [`kernel::sub`](crate::kernel::sub) writes for `a` and `b`.
pub open spec fn subtracted<T: Sub<Output = T>>(a: Seq<T>, b: Seq<T>, out: Seq<T>) -> bool {
    &&& a.len() == b.len() == out.len()
    &&& forall|i: int| 0 <= i < a.len() ==> (#[trigger] a[i]).sub_req(b[i])
    &&& forall|i: int| 0 <= i < a.len() ==> #[trigger] out[i] == a[i].sub_spec(b[i])
}

/// `out` is what [`kernel::mul`](crate::kernel::mul) writes for `a` and `b`.
pub open spec fn multiplied<T: Mul<Output = T>>(a: Seq<T>, b: Seq<T>, out: Seq<T>) -> bool {
    &&& a.len() == b.len() == out.len()
    &&& forall|i: int| 0 <= i < a.len() ==> (#[trigger] a[i]).mul_req(b[i])
    &&& forall|i: int| 0 <= i < a.len() ==> #[trigger] out[i] == a[i].mul_spec(b[i])
}

/// `out` is what [`kernel::mul_scalar`](crate::kernel::mul_scalar) writes for
/// `a` and `scalar`.
pub open spec fn scaled<T: Mul<Output = T>>(a: Seq<T>, scalar: T, out: Seq<T>) -> bool {
    &&& a.len() == out.len()
    &&& forall|i: int| 0 <= i < a.len() ==> (#[trigger] a[i]).mul_req(scalar)
    &&& forall|i: int| 0 <= i < a.len() ==> #[trigger] out[i] == a[i].mul_spec(scalar)
}

/// What the kernels take for `x + y` is what the type's own operator may return,
/// and the only such number where the type says which it is.
pub proof fn law_adds_to<T: Add<Output = T>>(x: T, y: T, z: T)
    requires
        crate::kernel::adds_to(x, y, z),
    ensures
        call_ensures(T::add, (x, y), z),
        T::obeys_add_spec() ==> z == x.add_spec(y),
{
}

/// What the kernels take for `x - y` is what the type's own operator may return,
/// and the only such number where the type says which it is.
pub proof fn law_subtracts_to<T: Sub<Output = T>>(x: T, y: T, z: T)
    requires
        crate::kernel::subtracts_to(x, y, z),
    ensures
        call_ensures(T::sub, (x, y), z),
        T::obeys_sub_spec() ==> z == x.sub_spec(y),
{
}

/// What the kernels take for `x * y` is what the type's own operator may return,
/// and the only such number where the type says which it is.
pub proof fn law_multiplies_to<T: Mul<Output = T>>(x: T, y: T, z: T)
    requires
        crate::kernel::multiplies_to(x, y, z),
    ensures
        call_ensures(T::mul, (x, y), z),
        T::obeys_mul_spec() ==> z == x.mul_spec(y),
{
}

/// Multiplying by a scalar is multiplying by a slice that holds nothing but
/// the scalar.
pub proof fn law_mul_scalar_is_mul<T: Mul<Output = T>>(a: Seq<T>, scalar: T, out: Seq<T>)
    ensures
        scaled(a, scalar, out) <==> multiplied(a, Seq::new(a.len(), |i: int| scalar), out),
{
    let constant = Seq::new(a.len(), |i: int| scalar);
    assert forall|i: int| 0 <= i < a.len() implies #[trigger] constant[i] == scalar by {}
    if multiplied(a, constant, out) {
        assert forall|i: int| 0 <= i < a.len() implies (#[trigger] a[i]).mul_req(scalar) by {
            assert(a[i].mul_req(constant[i]));
        }
    }
}

/// On `u8` elements, `sub` undoes `add`: it is defined on what `add` gives and
/// gives the elements back.
pub proof fn law_sub_undoes_add_u8(a: Seq<u8>, b: Seq<u8>, sum: Seq<u8>)
    requires
        added(a, b, sum),
    ensures
        subtracted(sum, b, a),
{
}

/// On `u16` elements, `sub` undoes `add`: it is defined on what `add` gives and
/// gives the elements back.
pub proof fn law_sub_undoes_add_u16(a: Seq<u16>, b: Seq<u16>, sum: Seq<u16>)
    requires
        added(a, b, sum),
    ensures
        subtracted(sum, b, a),
{
}

/// On `u32` elements, `sub` undoes `add`: it is defined on what `add` gives and
/// gives the elements back.
pub proof fn law_sub_undoes_add_u32(a: Seq<u32>, b: Seq<u32>, sum: Seq<u32>)
    requires
        added(a, b, sum),
    ensures
        subtracted(sum, b, a),
{
}

/// On `u64` elements, `sub` undoes `add`: it is defined on what `add` gives and
/// gives the elements back.
pub proof fn law_sub_undoes_add_u64(a: Seq<u64>, b: Seq<u64>, sum: Seq<u64>)
    requires
        added(a, b, sum),
    ensures
        subtracted(sum, b, a),
{
}

/// On `u128` elements, `sub` undoes `add`: it is defined on what `add` gives and
/// gives the elements back.
pub proof fn law_sub_undoes_add_u128(a: Seq<u128>, b: Seq<u128>, sum: Seq<u128>)
    requires
        added(a, b, sum),
    ensures
        subtracted(sum, b, a),
{
}

/// On `usize` elements, `sub` undoes `add`: it is defined on what `add` gives and
/// gives the elements back.
pub proof fn law_sub_undoes_add_usize(a: Seq<usize>, b: Seq<usize>, sum: Seq<usize>)
    requires
        added(a, b, sum),
    ensures
        subtracted(sum, b, a),
{
}

/// On `i8` elements, `sub` undoes `add`: it is defined on what `add` gives and
/// gives the elements back.
pub proof fn law_sub_undoes_add_i8(a: Seq<i8>, b: Seq<i8>, sum: Seq<i8>)
    requires
        added(a, b, sum),
    ensures
        subtracted(sum, b, a),
{
}

/// On `i16` elements, `sub` undoes `add`: it is defined on what `add` gives and
/// gives the elements back.
pub proof fn law_sub_undoes_add_i16(a: Seq<i16>, b: Seq<i16>, sum: Seq<i16>)
    requires
        added(a, b, sum),
    ensures
        subtracted(sum, b, a),
{
}

/// On `i32` elements, `sub` undoes `add`: it is defined on what `add` gives and
/// gives the elements back.
pub proof fn law_sub_undoes_add_i32(a: Seq<i32>, b: Seq<i32>, sum: Seq<i32>)
    requires
        added(a, b, sum),
    ensures
        subtracted(sum, b, a),
{
}

/// On `i64` elements, `sub` undoes `add`: it is defined on what `add` gives and
/// gives the elements back.
pub proof fn law_sub_undoes_add_i64(a: Seq<i64>, b: Seq<i64>, sum: Seq<i64>)
    requires
        added(a, b, sum),
    ensures
        subtracted(sum, b, a),
{
}

/// On `i128` elements, `sub` undoes `add`: it is defined on what `add` gives and
/// gives the elements back.
pub proof fn law_sub_undoes_add_i128(a: Seq<i128>, b: Seq<i128>, sum: Seq<i128>)
    requires
        added(a, b, sum),
    ensures
        subtracted(sum, b, a),
{
}

/// On `isize` elements, `sub` undoes `add`: it is defined on what `add` gives and
/// gives the elements back.
pub proof fn law_sub_undoes_add_isize(a: Seq<isize>, b: Seq<isize>, sum: Seq<isize>)
    requires
        added(a, b, sum),
    ensures
        subtracted(sum, b, a),
{
}

} // verus!
