//! Byte sequences cut into pieces of equal size.

use vstd::arithmetic::div_mod::*;
use vstd::arithmetic::mul::*;
use vstd::prelude::*;

verus! {

/// The `i`-th piece of `size` bytes.
pub open spec fn chunk(bytes: Seq<u8>, size: nat, i: int) -> Seq<u8> {
    bytes.subrange(i * size, i * size + size)
}

/// The whole pieces of `size` bytes, in order.
pub open spec fn chunks(bytes: Seq<u8>, size: nat) -> Seq<Seq<u8>> {
    Seq::new(bytes.len() / size, |i: int| chunk(bytes, size, i))
}

/// All pieces are `size` bytes long.
pub open spec fn uniform(parts: Seq<Seq<u8>>, size: nat) -> bool {
    forall|i: int| 0 <= i < parts.len() ==> (#[trigger] parts[i]).len() == size
}

/// The pieces, one after the other.
pub open spec fn join(parts: Seq<Seq<u8>>) -> Seq<u8>
    decreases parts.len(),
{
    if parts.len() == 0 {
        Seq::empty()
    } else {
        join(parts.drop_last()) + parts.last()
    }
}

/// Every whole piece lies within the bytes.
pub proof fn lemma_chunk_bounds(len: nat, size: nat, i: int)
    requires
        size > 0,
        0 <= i < len / size,
    ensures
        0 <= i * size,
        i * size + size <= len,
{
    lemma_fundamental_div_mod(len as int, size as int);
    let n = len as int / size as int;
    assert(i * size + size <= size * n && 0 <= i * size) by (nonlinear_arith)
        requires
            0 <= i < n,
            size > 0,
    ;
}

pub proof fn lemma_whole_chunks(n: nat, size: nat)
    requires
        size > 0,
    ensures
        (n * size) / size == n,
        (n * size) % size == 0,
{
    lemma_div_multiples_vanish(n as int, size as int);
    lemma_mod_multiples_basic(n as int, size as int);
    lemma_mul_is_commutative(n as int, size as int);
}

pub proof fn lemma_chunks_uniform(bytes: Seq<u8>, size: nat)
    requires
        size > 0,
    ensures
        uniform(chunks(bytes, size), size),
{
    assert forall|i: int| 0 <= i < chunks(bytes, size).len() implies (#[trigger] chunks(
        bytes,
        size,
    )[i]).len() == size by {
        lemma_chunk_bounds(bytes.len(), size, i);
    }
}

pub proof fn lemma_join_len(parts: Seq<Seq<u8>>, size: nat)
    requires
        uniform(parts, size),
    ensures
        join(parts).len() == parts.len() * size,
    decreases parts.len(),
{
    if parts.len() > 0 {
        lemma_join_len(parts.drop_last(), size);
        lemma_mul_is_distributive_add(size as int, parts.len() - 1, 1);
        lemma_mul_is_commutative(size as int, parts.len() as int);
        lemma_mul_is_commutative(size as int, parts.len() - 1);
    }
}

/// Bytes appended to whole pieces form pieces of their own.
pub proof fn lemma_chunks_append(a: Seq<u8>, b: Seq<u8>, size: nat)
    requires
        size > 0,
        a.len() % size == 0,
    ensures
        chunks(a + b, size) == chunks(a, size) + chunks(b, size),
{
    let n = a.len() / size;
    let m = b.len() / size;
    lemma_fundamental_div_mod(a.len() as int, size as int);
    lemma_fundamental_div_mod(b.len() as int, size as int);
    assert((a + b).len() == size * (n + m) + b.len() % size) by (nonlinear_arith)
        requires
            a.len() == size * n,
            b.len() == size * m + b.len() % size,
            (a + b).len() == a.len() + b.len(),
    ;
    lemma_fundamental_div_mod_converse(
        (a + b).len() as int,
        size as int,
        (n + m) as int,
        (b.len() % size) as int,
    );
    assert(chunks(a + b, size).len() == n + m);
    assert forall|i: int| 0 <= i < n + m implies chunks(a + b, size)[i] == (chunks(a, size)
        + chunks(b, size))[i] by {
        lemma_chunk_bounds((a + b).len(), size, i);
        if i < n {
            lemma_chunk_bounds(a.len(), size, i);
            assert(chunk(a + b, size, i) =~= chunk(a, size, i));
        } else {
            lemma_chunk_bounds(b.len(), size, i - n);
            assert(i * size == a.len() + (i - n) * size) by (nonlinear_arith)
                requires
                    a.len() == size * n,
            ;
            assert(chunk(a + b, size, i) =~= chunk(b, size, i - n));
        }
    }
    assert(chunks(a + b, size) =~= chunks(a, size) + chunks(b, size));
}

/// One piece is the only piece of itself.
pub proof fn lemma_chunks_single(part: Seq<u8>, size: nat)
    requires
        size > 0,
        part.len() == size,
    ensures
        chunks(part, size) == seq![part],
{
    lemma_div_by_self(size as int);
    assert(chunk(part, size, 0) =~= part);
    assert(chunks(part, size) =~= seq![part]);
}

/// Cutting joined pieces gives the pieces back.
pub proof fn lemma_chunks_of_join(parts: Seq<Seq<u8>>, size: nat)
    requires
        size > 0,
        uniform(parts, size),
    ensures
        chunks(join(parts), size) == parts,
        join(parts).len() == parts.len() * size,
        join(parts).len() % size == 0,
    decreases parts.len(),
{
    lemma_join_len(parts, size);
    lemma_whole_chunks(parts.len(), size);
    if parts.len() > 0 {
        let front = parts.drop_last();
        lemma_chunks_of_join(front, size);
        lemma_chunks_append(join(front), parts.last(), size);
        lemma_chunks_single(parts.last(), size);
        assert(front + seq![parts.last()] =~= parts);
    } else {
        assert(chunks(join(parts), size) =~= parts);
    }
}

/// Joining the pieces of bytes that are whole pieces gives the bytes back.
pub proof fn lemma_join_of_chunks(bytes: Seq<u8>, size: nat)
    requires
        size > 0,
        bytes.len() % size == 0,
    ensures
        join(chunks(bytes, size)) == bytes,
    decreases bytes.len(),
{
    lemma_fundamental_div_mod(bytes.len() as int, size as int);
    let n = bytes.len() / size;
    if bytes.len() == 0 {
        assert(chunks(bytes, size).len() == 0) by {
            lemma_div_basics_1(size as int);
        }
        assert(join(chunks(bytes, size)) =~= bytes);
    } else {
        assert(n > 0) by (nonlinear_arith)
            requires
                bytes.len() == size * n,
                bytes.len() > 0,
        ;
        lemma_chunk_bounds(bytes.len(), size, n - 1);
        assert((n - 1) * size + size == bytes.len()) by (nonlinear_arith)
            requires
                bytes.len() == size * n,
        ;
        let front = bytes.subrange(0, (n - 1) * size);
        let last = chunk(bytes, size, n - 1);
        lemma_whole_chunks((n - 1) as nat, size);
        lemma_join_of_chunks(front, size);
        lemma_chunks_append(front, last, size);
        lemma_chunks_single(last, size);
        assert(front + last =~= bytes);
        assert(chunks(bytes, size).drop_last() =~= chunks(front, size));
        assert(chunks(bytes, size).last() == last);
    }
}

/// A run of whole pieces cuts into those pieces.
pub proof fn lemma_chunks_subrange(bytes: Seq<u8>, size: nat, from: int, to: int)
    requires
        size > 0,
        0 <= from <= to <= bytes.len() / size,
    ensures
        0 <= from * size <= to * size <= bytes.len(),
        to * size - from * size == (to - from) * size,
        chunks(bytes.subrange(from * size, to * size), size) == chunks(bytes, size).subrange(
            from,
            to,
        ),
        bytes.subrange(from * size, to * size).len() % size == 0,
{
    lemma_fundamental_div_mod(bytes.len() as int, size as int);
    let n = bytes.len() / size;
    assert(0 <= from * size <= to * size <= size * n) by (nonlinear_arith)
        requires
            0 <= from <= to <= n,
    ;
    assert(to * size - from * size == (to - from) * size) by (nonlinear_arith);
    lemma_whole_chunks((to - from) as nat, size);
    let part = bytes.subrange(from * size, to * size);
    assert forall|i: int| 0 <= i < to - from implies chunks(part, size)[i] == chunks(
        bytes,
        size,
    )[from + i] by {
        lemma_chunk_bounds(part.len(), size, i);
        lemma_chunk_bounds(bytes.len(), size, from + i);
        assert((from + i) * size == from * size + i * size) by (nonlinear_arith);
        assert(chunk(part, size, i) =~= chunk(bytes, size, from + i));
    }
    assert(chunks(part, size) =~= chunks(bytes, size).subrange(from, to));
}

} // verus!
