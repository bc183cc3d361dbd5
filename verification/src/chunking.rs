//! Large values in pieces: how a value is cut into chunks and put
//! together again, and how the number of chunks is framed in the row
//! that stands for the value.

use vstd::prelude::*;
use vstd::arithmetic::div_mod::{lemma_fundamental_div_mod, lemma_mod_bound};
use vstd::slice::slice_subrange;
use crate::text::{bytes_eq, copy_bytes, push_all, views};

verus! {

/// How many chunks of `chunk_size` bytes hold `len` bytes: `len` divided
/// by `chunk_size`, rounded up.
pub open spec fn num_chunks(len: nat, chunk_size: nat) -> nat {
    if chunk_size == 0 {
        0
    } else {
        (len + chunk_size - 1) as nat / chunk_size
    }
}

/// Where chunk `i` ends in a value of `len` bytes.
pub open spec fn chunk_end(len: nat, chunk_size: nat, i: int) -> int {
    if (i + 1) * chunk_size < len {
        (i + 1) * chunk_size
    } else {
        len as int
    }
}

/// Chunk `i` of a value: `chunk_size` bytes from `i * chunk_size` on, or
/// what is left of the value.
pub open spec fn chunk_at(value: Seq<u8>, chunk_size: nat, i: int) -> Seq<u8> {
    value.subrange(i * chunk_size, chunk_end(value.len(), chunk_size, i))
}

/// The chunks of a value, in order.
pub open spec fn chunks_of(value: Seq<u8>, chunk_size: nat) -> Seq<Seq<u8>> {
    Seq::new(num_chunks(value.len(), chunk_size), |i: int| chunk_at(value, chunk_size, i))
}

/// The chunks put together in order.
pub open spec fn concat(chunks: Seq<Seq<u8>>) -> Seq<u8>
    decreases chunks.len(),
{
    if chunks.len() == 0 {
        Seq::<u8>::empty()
    } else {
        concat(chunks.drop_last()) + chunks.last()
    }
}

/// The lengths of the chunks, added up.
pub open spec fn total_len(chunks: Seq<Seq<u8>>) -> nat
    decreases chunks.len(),
{
    if chunks.len() == 0 {
        0
    } else {
        total_len(chunks.drop_last()) + chunks.last().len()
    }
}

pub proof fn lemma_total_len(chunks: Seq<Seq<u8>>)
    ensures
        total_len(chunks) == concat(chunks).len(),
    decreases chunks.len(),
{
    if chunks.len() > 0 {
        lemma_total_len(chunks.drop_last());
    }
}

/// Chunk `i` exists exactly when the value goes beyond `i` full chunks.
pub proof fn lemma_num_chunks(len: nat, chunk_size: nat, i: int)
    requires
        chunk_size >= 1,
        i >= 0,
    ensures
        i < num_chunks(len, chunk_size) <==> i * chunk_size < len,
{
    let n = num_chunks(len, chunk_size) as int;
    let x = (len + chunk_size - 1) as int;
    let d = chunk_size as int;
    lemma_fundamental_div_mod(x, d);
    lemma_mod_bound(x, d);
    assert(x == d * n + x % d);
    if i < n {
        assert(i * d <= (n - 1) * d) by (nonlinear_arith)
            requires
                i <= n - 1,
                d >= 0,
        ;
        assert((n - 1) * d == d * n - d) by (nonlinear_arith);
    } else {
        assert(i * d >= n * d) by (nonlinear_arith)
            requires
                i >= n,
                d >= 0,
        ;
        assert(n * d == d * n) by (nonlinear_arith);
    }
}

/// The first `k` chunks put together are the first `k * chunk_size`
/// bytes of the value, or all of it.
pub proof fn lemma_concat_prefix(value: Seq<u8>, chunk_size: nat, k: int)
    requires
        chunk_size >= 1,
        0 <= k <= num_chunks(value.len(), chunk_size),
    ensures
        concat(chunks_of(value, chunk_size).take(k)) == value.take(
            if k * chunk_size < value.len() {
                k * chunk_size
            } else {
                value.len() as int
            },
        ),
    decreases k,
{
    let all = chunks_of(value, chunk_size);
    if k == 0 {
        assert(all.take(0) =~= Seq::<Seq<u8>>::empty());
        assert(0 * chunk_size == 0) by (nonlinear_arith);
        assert(value.take(0) =~= Seq::<u8>::empty());
    } else {
        lemma_concat_prefix(value, chunk_size, k - 1);
        lemma_num_chunks(value.len(), chunk_size, k - 1);
        let t = all.take(k);
        assert(t.drop_last() =~= all.take(k - 1));
        assert(t.last() == chunk_at(value, chunk_size, k - 1));
        assert((k - 1) * chunk_size < value.len());
        assert((k - 1 + 1) * chunk_size == k * chunk_size) by (nonlinear_arith);
        assert((k - 1) * chunk_size <= k * chunk_size) by (nonlinear_arith)
            requires
                chunk_size >= 0,
        ;
        let end = chunk_end(value.len(), chunk_size, k - 1);
        assert(value.take((k - 1) * chunk_size) + value.subrange((k - 1) * chunk_size, end)
            =~= value.take(end));
    }
}

/// The chunks of a value, put together, are the value: nothing is lost
/// and nothing is added, so their lengths add up to the value's.
pub proof fn lemma_chunks_round_trip(value: Seq<u8>, chunk_size: nat)
    requires
        chunk_size >= 1,
    ensures
        concat(chunks_of(value, chunk_size)) == value,
        total_len(chunks_of(value, chunk_size)) == value.len(),
        chunks_of(value, chunk_size).len() == num_chunks(value.len(), chunk_size),
{
    let n = num_chunks(value.len(), chunk_size) as int;
    lemma_concat_prefix(value, chunk_size, n);
    lemma_num_chunks(value.len(), chunk_size, n);
    assert(chunks_of(value, chunk_size).take(n) =~= chunks_of(value, chunk_size));
    assert(value.take(value.len() as int) =~= value);
    lemma_total_len(chunks_of(value, chunk_size));
}

/// Cuts a value into chunks of `chunk_size` bytes; the last may be
/// shorter.
pub fn split_chunks(value: &[u8], chunk_size: usize) -> (out: Vec<Vec<u8>>)
    requires
        chunk_size >= 1,
    ensures
        views(out@) == chunks_of(value@, chunk_size as nat),
        out@.len() == num_chunks(value@.len(), chunk_size as nat),
{
    let len = value.len();
    let mut out: Vec<Vec<u8>> = Vec::new();
    let mut start: usize = 0;
    proof {
        assert(0 * chunk_size == 0) by (nonlinear_arith);
    }
    while start < len
        invariant
            chunk_size >= 1,
            len == value@.len(),
            start <= len,
            start == (if out@.len() * chunk_size < len {
                out@.len() * chunk_size
            } else {
                len as int
            }),
            out@.len() <= num_chunks(len as nat, chunk_size as nat),
            forall|j: int|
                0 <= j < out@.len() ==> (#[trigger] out@[j])@ == chunk_at(
                    value@,
                    chunk_size as nat,
                    j,
                ),
        decreases len - start,
    {
        let ghost i = out@.len() as int;
        let end = if len - start <= chunk_size {
            len
        } else {
            start + chunk_size
        };
        proof {
            lemma_num_chunks(len as nat, chunk_size as nat, i);
            lemma_num_chunks(len as nat, chunk_size as nat, i + 1);
            assert((i + 1) * chunk_size == i * chunk_size + chunk_size) by (nonlinear_arith);
        }
        let piece = copy_bytes(slice_subrange(value, start, end));
        out.push(piece);
        start = end;
    }
    proof {
        lemma_num_chunks(len as nat, chunk_size as nat, out@.len() as int);
        assert(views(out@) =~= chunks_of(value@, chunk_size as nat));
    }
    out
}

/// Puts chunks together in order.
pub fn concat_chunks(chunks: &Vec<Vec<u8>>) -> (out: Vec<u8>)
    ensures
        out@ == concat(views(chunks@)),
{
    let mut out: Vec<u8> = Vec::new();
    let mut i: usize = 0;
    assert(views(chunks@).take(0) =~= Seq::<Seq<u8>>::empty());
    while i < chunks.len()
        invariant
            i <= chunks.len(),
            out@ == concat(views(chunks@).take(i as int)),
        decreases chunks.len() - i,
    {
        proof {
            let t = views(chunks@).take(i + 1);
            assert(t.drop_last() =~= views(chunks@).take(i as int));
            assert(t.last() == chunks@[i as int]@);
        }
        push_all(&mut out, chunks[i].as_slice());
        i += 1;
    }
    assert(views(chunks@).take(chunks.len() as int) =~= views(chunks@));
    out
}

/// A signed number folded onto the unsigned ones: 0, -1, 1, -2, 2, ...
/// become 0, 1, 2, 3, 4, ...
pub open spec fn zigzag(n: i32) -> nat {
    if n >= 0 {
        (2 * n) as nat
    } else {
        (-2 * n - 1) as nat
    }
}

/// What `zigzag` folded.
pub open spec fn unzigzag(v: nat) -> int {
    if v % 2 == 0 {
        v as int / 2
    } else {
        -((v as int + 1) / 2)
    }
}

/// A number in groups of seven bits, lowest first; every byte but the
/// last has its top bit set.
pub open spec fn varint(v: nat) -> Seq<u8>
    decreases v,
{
    if v < 128 {
        seq![v as u8]
    } else {
        seq![(128 + v % 128) as u8] + varint(v / 128)
    }
}

/// The number that groups of seven bits stand for, lowest first.
pub open spec fn varint_value(bytes: Seq<u8>) -> nat
    decreases bytes.len(),
{
    if bytes.len() == 0 {
        0
    } else {
        (bytes[0] % 128) as nat + 128 * varint_value(bytes.skip(1))
    }
}

/// The row that stands for a value kept in `n` chunks: the mark of the
/// field `num_of_chunks` (field 1, a 32-bit number), the number folded
/// and in groups of seven bits, and the mark that ends the record.
pub open spec fn in_chunk_header(n: i32) -> Seq<u8> {
    seq![0x15u8] + varint(zigzag(n)) + seq![0u8]
}

pub proof fn lemma_varint_round_trip(v: nat)
    ensures
        varint_value(varint(v)) == v,
        varint(v).len() >= 1,
        v < 0x1_0000_0000 ==> varint(v).len() <= 5,
    decreases v,
{
    if v < 128 {
        let s = varint(v);
        assert(s.skip(1) =~= Seq::<u8>::empty());
        assert(varint_value(s.skip(1)) == 0);
        assert(s[0] == v as u8);
        assert(varint_value(s) == (s[0] % 128) as nat + 128 * varint_value(s.skip(1)));
    } else {
        lemma_varint_round_trip(v / 128);
        let s = varint(v);
        assert(s.skip(1) =~= varint(v / 128));
        assert(s[0] == (128 + v % 128) as u8);
        assert((s[0] % 128) as nat == v % 128);
        assert(varint_value(s) == (s[0] % 128) as nat + 128 * varint_value(s.skip(1)));
        if v < 0x1_0000_0000 {
            lemma_varint_len(v);
        }
    }
}

proof fn lemma_varint_len(v: nat)
    requires
        v < 0x1_0000_0000,
    ensures
        varint(v).len() <= 5,
{
    reveal_with_fuel(varint, 6);
}

pub proof fn lemma_zigzag_round_trip(n: i32)
    ensures
        unzigzag(zigzag(n)) == n,
        zigzag(n) < 0x1_0000_0000,
{
}

/// The row that stands for a value kept in `n` chunks.
pub fn encode_in_chunk(n: i32) -> (out: Vec<u8>)
    ensures
        out@ == in_chunk_header(n),
{
    let mut out: Vec<u8> = Vec::new();
    out.push(0x15);
    let wide: i64 = n as i64;
    let folded: i64 = if wide >= 0 {
        2 * wide
    } else {
        2 * (0 - wide) - 1
    };
    let mut v: u64 = folded as u64;
    assert(v == zigzag(n));
    let ghost done = seq![0x15u8];
    while v >= 128
        invariant
            out@ + varint(v as nat) == seq![0x15u8] + varint(zigzag(n)),
        decreases v,
    {
        let b: u8 = (128 + v % 128) as u8;
        proof {
            assert(varint(v as nat) =~= seq![b] + varint((v / 128) as nat));
            assert(out@.push(b) + varint((v / 128) as nat) =~= out@ + varint(v as nat));
        }
        out.push(b);
        v = v / 128;
    }
    proof {
        assert(varint(v as nat) =~= seq![v as u8]);
        assert(out@.push(v as u8) =~= out@ + varint(v as nat));
    }
    out.push(v as u8);
    out.push(0);
    out
}

/// The number of chunks that a row stands for; nothing for a row that is
/// not framed as `encode_in_chunk` frames it.
pub fn decode_in_chunk(bytes: &[u8]) -> (r: Option<i32>)
    ensures
        r is Some <==> exists|n: i32| bytes@ == in_chunk_header(n),
        r matches Some(n) ==> bytes@ == in_chunk_header(n),
{
    let len = bytes.len();
    proof {
        assert forall|n: i32| bytes@ == in_chunk_header(n) implies 3 <= len <= 7 && bytes@[0]
            == 0x15 by {
            lemma_zigzag_round_trip(n);
            lemma_varint_round_trip(zigzag(n));
        }
    }
    if len < 3 || len > 7 {
        return None;
    }
    if bytes[0] != 0x15 {
        return None;
    }
    let mut v: u64 = 0;
    let mut i: usize = len - 1;
    let ghost middle = bytes@.subrange(1, len - 1);
    assert(middle.skip(middle.len() as int) =~= Seq::<u8>::empty());
    while i > 1
        invariant
            1 <= i <= len - 1,
            3 <= len <= 7,
            len == bytes@.len(),
            middle == bytes@.subrange(1, len - 1),
            v == varint_value(middle.skip(i - 1)),
            v < pow128(len - 1 - i),
        decreases i,
    {
        i -= 1;
        proof {
            let s = middle.skip(i - 1);
            assert(s[0] == bytes@[i as int]);
            assert(s.skip(1) =~= middle.skip(i as int));
            reveal_with_fuel(pow128, 7);
        }
        v = (bytes[i] % 128) as u64 + 128 * v;
    }
    assert(middle.skip(0) =~= middle);
    proof {
        assert forall|n: i32| bytes@ == in_chunk_header(n) implies v == zigzag(n) by {
            lemma_varint_round_trip(zigzag(n));
            assert(middle =~= varint(zigzag(n)));
        }
    }
    if v > 0xffff_ffff {
        proof {
            assert forall|n: i32| bytes@ == in_chunk_header(n) implies false by {
                lemma_zigzag_round_trip(n);
            }
        }
        return None;
    }
    let n: i32 = if v % 2 == 0 {
        (v / 2) as i32
    } else {
        (-(((v + 1) / 2) as i64)) as i32
    };
    proof {
        assert forall|m: i32| bytes@ == in_chunk_header(m) implies m == n by {
            lemma_zigzag_round_trip(m);
        }
    }
    let again = encode_in_chunk(n);
    if bytes_eq(again.as_slice(), bytes) {
        Some(n)
    } else {
        None
    }
}

/// 128 to the power of `k`.
pub open spec fn pow128(k: int) -> nat
    decreases k,
{
    if k <= 0 {
        1
    } else {
        128 * pow128(k - 1)
    }
}

} // verus!
