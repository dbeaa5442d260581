//! Big-endian integers and length-prefixed frames, the building blocks of the
//! index file format.

use vstd::prelude::*;

verus! {

/// The value of a big-endian byte string.
pub open spec fn be_value(b: Seq<u8>) -> nat
    decreases b.len(),
{
    if b.len() == 0 {
        0
    } else {
        be_value(b.drop_last()) * 256 + b.last() as nat
    }
}

/// The eight big-endian bytes of `v`.
pub open spec fn be_bytes_u64(v: nat) -> Seq<u8> {
    Seq::new(8, |i: int| ((v / pow256((7 - i) as nat)) % 256) as u8)
}

/// `256` raised to `n`.
pub open spec fn pow256(n: nat) -> nat
    decreases n,
{
    if n == 0 {
        1
    } else {
        256 * pow256((n - 1) as nat)
    }
}

pub proof fn lemma_be_value_bound(b: Seq<u8>)
    ensures
        be_value(b) < pow256(b.len()),
    decreases b.len(),
{
    if b.len() > 0 {
        lemma_be_value_bound(b.drop_last());
        let p = pow256((b.len() - 1) as nat);
        assert(be_value(b.drop_last()) * 256 + 255 < p * 256) by (nonlinear_arith)
            requires
                be_value(b.drop_last()) < p,
        ;
    }
}

pub proof fn lemma_pow256_8()
    ensures
        pow256(8) == 0x1_0000_0000_0000_0000,
{
    reveal_with_fuel(pow256, 9);
}

/// Reads the first eight bytes of `b` as a big-endian `u64`.
pub fn read_u64_be(b: &[u8]) -> (r: u64)
    requires
        b@.len() >= 8,
    ensures
        r as nat == be_value(b@.take(8)),
{
    let mut acc: u64 = 0;
    let mut i: usize = 0;
    while i < 8
        invariant
            i <= 8,
            b@.len() >= 8,
            acc as nat == be_value(b@.take(i as int)),
        decreases 8 - i,
    {
        proof {
            lemma_be_value_bound(b@.take(i as int));
            assert(b@.take(i as int + 1).drop_last() =~= b@.take(i as int));
            reveal_with_fuel(pow256, 9);
            assert(pow256(i as nat) <= pow256(7)) by {
                lemma_pow256_mono(i as nat, 7);
            }
        }
        acc = acc * 256 + b[i] as u64;
        i = i + 1;
    }
    acc
}

pub proof fn lemma_pow256_mono(a: nat, b: nat)
    requires
        a <= b,
    ensures
        pow256(a) <= pow256(b),
    decreases b,
{
    if a < b {
        lemma_pow256_mono(a, (b - 1) as nat);
    }
}


/// The `n` big-endian bytes of `v`, keeping only its `n` low bytes.
pub open spec fn be_encode(v: nat, n: nat) -> Seq<u8>
    decreases n,
{
    if n == 0 {
        seq![]
    } else {
        be_encode(v / 256, (n - 1) as nat).push((v % 256) as u8)
    }
}

/// A length-prefixed frame: eight big-endian bytes of the length of `data`,
/// then `data`.
pub open spec fn frame(data: Seq<u8>) -> Seq<u8> {
    be_encode(data.len(), 8) + data
}

/// The frame that starts at `pos` in `b`, if one fits there: the framed data
/// and the position just past it.
pub open spec fn frame_at(b: Seq<u8>, pos: int) -> Option<(Seq<u8>, int)> {
    if 0 <= pos && pos + 8 <= b.len() && pos + 8 + be_value(b.subrange(pos, pos + 8)) <= b.len() {
        let size = be_value(b.subrange(pos, pos + 8));
        Some((b.subrange(pos + 8, pos + 8 + size), pos + 8 + size))
    } else {
        None
    }
}

pub proof fn lemma_be_encode_len(v: nat, n: nat)
    ensures
        be_encode(v, n).len() == n,
    decreases n,
{
    if n > 0 {
        lemma_be_encode_len(v / 256, (n - 1) as nat);
    }
}

/// Reading back `n` encoded bytes gives `v` modulo `256^n`.
pub proof fn lemma_be_value_encode(v: nat, n: nat)
    ensures
        be_value(be_encode(v, n)) == v % pow256(n),
    decreases n,
{
    if n == 0 {
        assert(v % 1 == 0) by (nonlinear_arith);
    } else {
        lemma_be_value_encode(v / 256, (n - 1) as nat);
        let e = be_encode(v, n);
        assert(e.drop_last() =~= be_encode(v / 256, (n - 1) as nat));
        let p = pow256((n - 1) as nat);
        assert(p > 0) by {
            lemma_pow256_pos((n - 1) as nat);
        }
        vstd::arithmetic::div_mod::lemma_mod_breakdown(v as int, 256, p as int);
        assert(pow256(n) == 256 * p);
        assert((v % 256) as u8 as nat == v % 256);
    }
}

pub proof fn lemma_pow256_pos(n: nat)
    ensures
        pow256(n) > 0,
    decreases n,
{
    if n > 0 {
        lemma_pow256_pos((n - 1) as nat);
    }
}

/// Encoding `k + 1` bytes puts the `k`-th byte from the end in front of the
/// last `k` bytes.
pub proof fn lemma_be_encode_front(v: nat, k: nat)
    ensures
        be_encode(v, k + 1) == seq![((v / pow256(k)) % 256) as u8] + be_encode(v, k),
    decreases k,
{
    if k == 0 {
        assert(v / 1 == v) by (nonlinear_arith);
        assert(pow256(0) == 1);
        assert(be_encode(v / 256, 0) =~= Seq::<u8>::empty());
        assert(be_encode(v, 1) =~= seq![(v % 256) as u8]);
    } else {
        let km1 = (k - 1) as nat;
        lemma_be_encode_front(v / 256, km1);
        lemma_pow256_pos(km1);
        vstd::arithmetic::div_mod::lemma_div_denominator(v as int, 256, pow256(km1) as int);
        assert(pow256(k) == 256 * pow256(km1));
        assert(be_encode(v, k + 1) =~= seq![((v / pow256(k)) % 256) as u8] + be_encode(v, k));
    }
}

/// Appends the eight big-endian bytes of `v`.
pub fn write_u64_be(v: u64, out: &mut Vec<u8>)
    ensures
        final(out)@ == old(out)@ + be_encode(v as nat, 8),
{
    let mut buf: Vec<u8> = vec![0u8; 8];
    let mut x: u64 = v;
    let mut k: usize = 0;
    assert(v as nat / pow256(0) == v as nat) by {
        assert(pow256(0) == 1);
        assert(v as nat / 1 == v as nat) by (nonlinear_arith);
    }
    assert(buf@.subrange(8, 8) =~= be_encode(v as nat, 0));
    while k < 8
        invariant
            k <= 8,
            buf@.len() == 8,
            x as nat == v as nat / pow256(k as nat),
            buf@.subrange(8 - k as int, 8) == be_encode(v as nat, k as nat),
        decreases 8 - k,
    {
        proof {
            lemma_be_encode_front(v as nat, k as nat);
            lemma_pow256_pos(k as nat);
            vstd::arithmetic::div_mod::lemma_div_denominator(v as int, pow256(k as nat) as int, 256);
            assert(pow256(k as nat + 1) == 256 * pow256(k as nat));
        }
        let ghost old_buf = buf@;
        buf.set(7 - k, (x % 256) as u8);
        x = x / 256;
        proof {
            assert(pow256(k as nat) * 256 == pow256(k as nat + 1));
            assert(buf@.subrange(8 - (k + 1) as int, 8) =~= seq![((v as nat / pow256(k as nat)) % 256) as u8] + old_buf.subrange(8 - k as int, 8));
        }
        k = k + 1;
    }
    assert(buf@.subrange(0, 8) =~= buf@);
    let mut i: usize = 0;
    let ghost start = out@;
    while i < 8
        invariant
            i <= 8,
            buf@.len() == 8,
            buf@ == be_encode(v as nat, 8),
            out@ == start + buf@.take(i as int),
        decreases 8 - i,
    {
        out.push(buf[i]);
        assert(buf@.take(i as int + 1) =~= buf@.take(i as int).push(buf@[i as int]));
        i = i + 1;
    }
    assert(buf@.take(8) =~= buf@);
}

/// Appends a frame holding `data`.
pub fn write_frame(data: &[u8], out: &mut Vec<u8>)
    ensures
        final(out)@ == old(out)@ + frame(data@),
{
    write_u64_be(data.len() as u64, out);
    let ghost mid = out@;
    let mut i: usize = 0;
    while i < data.len()
        invariant
            i <= data@.len(),
            out@ == mid + data@.take(i as int),
        decreases data@.len() - i,
    {
        out.push(data[i]);
        assert(data@.take(i as int + 1) =~= data@.take(i as int).push(data@[i as int]));
        i = i + 1;
    }
    assert(data@.take(data@.len() as int) =~= data@);
}

/// Copies `b[from..to]` into a new vector.
pub fn copy_range(b: &[u8], from: usize, to: usize) -> (r: Vec<u8>)
    requires
        from <= to <= b@.len(),
    ensures
        r@ == b@.subrange(from as int, to as int),
{
    let mut r: Vec<u8> = Vec::new();
    let mut i = from;
    while i < to
        invariant
            from <= i <= to <= b@.len(),
            r@ == b@.subrange(from as int, i as int),
        decreases to - i,
    {
        r.push(b[i]);
        assert(b@.subrange(from as int, i as int + 1) =~= b@.subrange(from as int, i as int).push(b@[i as int]));
        i = i + 1;
    }
    r
}

/// Reads the frame at `pos`: the framed bytes and the position after them.
pub fn read_frame(b: &[u8], pos: usize) -> (r: (Vec<u8>, usize))
    requires
        frame_at(b@, pos as int) is Some,
    ensures
        frame_at(b@, pos as int) == Some((r.0@, r.1 as int)),
{
    let size = read_u64_be_at(b, pos);
    assert(b@.len() == b.len());
    let end = pos + 8 + size as usize;
    (copy_range(b, pos + 8, end), end)
}

/// Reads eight big-endian bytes at `pos`.
pub fn read_u64_be_at(b: &[u8], pos: usize) -> (r: u64)
    requires
        pos + 8 <= b@.len(),
    ensures
        r as nat == be_value(b@.subrange(pos as int, pos + 8)),
{
    let mut acc: u64 = 0;
    let mut i: usize = 0;
    let n = b.len();
    while i < 8
        invariant
            i <= 8,
            n == b@.len(),
            pos + 8 <= b@.len(),
            acc as nat == be_value(b@.subrange(pos as int, pos + i)),
        decreases 8 - i,
    {
        proof {
            lemma_be_value_bound(b@.subrange(pos as int, pos + i));
            assert(b@.subrange(pos as int, pos + i + 1).drop_last() =~= b@.subrange(pos as int, pos + i));
            reveal_with_fuel(pow256, 9);
            lemma_pow256_mono(i as nat, 7);
        }
        acc = acc * 256 + b[pos + i] as u64;
        i = i + 1;
    }
    acc
}

} // verus!
