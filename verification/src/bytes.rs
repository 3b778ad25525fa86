//! Byte-sequence vocabulary shared by the header codec, the entry chunker and
//! the archive: zero padding, byte sums, and flattening of 512-byte blocks,
//! with the small executable helpers that realise them on `Vec<u8>`.

use vstd::prelude::*;

verus! {

/// A sequence of `n` zero bytes.
pub open spec fn zeros(n: nat) -> Seq<u8> {
    Seq::new(n, |i: int| 0u8)
}

/// `s` right-padded with zero bytes to width `n`.
pub open spec fn pad_zero(s: Seq<u8>, n: nat) -> Seq<u8> {
    s + zeros((n - s.len()) as nat)
}

/// Every byte of `s` is zero.
pub open spec fn all_zero(s: Seq<u8>) -> bool {
    forall|i: int| 0 <= i < s.len() ==> s[i] == 0
}

/// The sum of the unsigned byte values of `s`.
pub open spec fn sum_bytes(s: Seq<u8>) -> int
    decreases s.len(),
{
    if s.len() == 0 {
        0
    } else {
        sum_bytes(s.drop_last()) + s.last()
    }
}

/// The blocks of `bs` laid out one after another.
pub open spec fn flat(bs: Seq<Seq<u8>>) -> Seq<u8>
    decreases bs.len(),
{
    if bs.len() == 0 {
        Seq::empty()
    } else {
        flat(bs.drop_last()) + bs.last()
    }
}

/// The first `k` consecutive 512-byte blocks of `s`, starting at `base`.
pub open spec fn take_blocks(s: Seq<u8>, base: int, k: nat) -> Seq<Seq<u8>> {
    Seq::new(k, |i: int| s.subrange(base + 512 * i, base + 512 * i + 512))
}

/// The mathematical contents of a sequence of byte vectors.
pub open spec fn views_of(bs: Seq<Vec<u8>>) -> Seq<Seq<u8>> {
    Seq::new(bs.len(), |i: int| bs[i]@)
}

pub proof fn lemma_sum_bytes_bounds(s: Seq<u8>)
    ensures
        0 <= sum_bytes(s) <= 255 * s.len(),
    decreases s.len(),
{
    if s.len() > 0 {
        lemma_sum_bytes_bounds(s.drop_last());
    }
}

/// Extending a sequence by one byte adds that byte to its sum.
pub proof fn lemma_sum_bytes_take_step(s: Seq<u8>, i: int)
    requires
        0 <= i < s.len(),
    ensures
        sum_bytes(s.take(i + 1)) == sum_bytes(s.take(i)) + s[i],
{
    assert(s.take(i + 1).drop_last() =~= s.take(i));
    assert(s.take(i + 1).last() == s[i]);
}

/// Changing one byte changes the sum by the difference of the bytes.
pub proof fn lemma_sum_bytes_update(s: Seq<u8>, i: int, b: u8)
    requires
        0 <= i < s.len(),
    ensures
        sum_bytes(s.update(i, b)) == sum_bytes(s) - s[i] + b,
    decreases s.len(),
{
    let t = s.update(i, b);
    if i == s.len() - 1 {
        assert(t.drop_last() =~= s.drop_last());
        assert(t.last() == b);
    } else {
        assert(t.drop_last() =~= s.drop_last().update(i, b));
        assert(t.last() == s.last());
        lemma_sum_bytes_update(s.drop_last(), i, b);
    }
}

/// Flattening `k` blocks of 512 bytes each yields `512 * k` bytes.
pub proof fn lemma_flat_len(bs: Seq<Seq<u8>>)
    requires
        forall|i: int| 0 <= i < bs.len() ==> #[trigger] bs[i].len() == 512,
    ensures
        flat(bs).len() == 512 * bs.len(),
    decreases bs.len(),
{
    if bs.len() > 0 {
        lemma_flat_len(bs.drop_last());
    }
}

/// Within flattened 512-byte blocks, block `i` sits at offset `512 * i`.
pub proof fn lemma_flat_block_at(bs: Seq<Seq<u8>>, i: int)
    requires
        forall|j: int| 0 <= j < bs.len() ==> #[trigger] bs[j].len() == 512,
        0 <= i < bs.len(),
    ensures
        flat(bs).subrange(512 * i, 512 * i + 512) == bs[i],
    decreases bs.len(),
{
    lemma_flat_len(bs);
    lemma_flat_len(bs.drop_last());
    if i == bs.len() - 1 {
        assert(flat(bs).subrange(512 * i, 512 * i + 512) =~= bs[i]);
    } else {
        lemma_flat_block_at(bs.drop_last(), i);
        assert(flat(bs).subrange(512 * i, 512 * i + 512) =~= flat(bs.drop_last()).subrange(
            512 * i,
            512 * i + 512,
        ));
    }
}

/// A fresh vector of `n` zero bytes.
pub fn zero_vec(n: usize) -> (r: Vec<u8>)
    ensures
        r@ == zeros(n as nat),
{
    let mut r: Vec<u8> = Vec::new();
    let mut i: usize = 0;
    while i < n
        invariant
            i <= n,
            r@.len() == i,
            forall|k: int| 0 <= k < i ==> r@[k] == 0,
        decreases n - i,
    {
        r.push(0);
        i = i + 1;
    }
    assert(r@ =~= zeros(n as nat));
    r
}

/// Appends every byte of `src` to `out`.
pub fn append_bytes(out: &mut Vec<u8>, src: &Vec<u8>)
    ensures
        final(out)@ == old(out)@ + src@,
{
    let mut i: usize = 0;
    while i < src.len()
        invariant
            i <= src@.len(),
            out@ == old(out)@ + src@.take(i as int),
        decreases src@.len() - i,
    {
        let b = src[i];
        out.push(b);
        assert(old(out)@ + src@.take(i as int) + seq![b] =~= old(out)@ + src@.take(i + 1));
        i = i + 1;
    }
    assert(old(out)@ + src@.take(src@.len() as int) =~= old(out)@ + src@);
}

/// Copies `len` bytes of `src` starting at `start` into a fresh vector.
pub fn take_range(src: &Vec<u8>, start: usize, len: usize) -> (r: Vec<u8>)
    requires
        start + len <= src@.len(),
    ensures
        r@ == src@.subrange(start as int, start as int + len as int),
{
    let mut r: Vec<u8> = Vec::new();
    let mut i: usize = 0;
    assert(src@.len() <= usize::MAX) by {
        assert(src.len() == src@.len());
    };
    while i < len
        invariant
            i <= len,
            start + len <= src@.len() <= usize::MAX,
            r@ == src@.subrange(start as int, start as int + i as int),
        decreases len - i,
    {
        let b = src[start + i];
        r.push(b);
        assert(src@.subrange(start as int, start as int + i as int) + seq![b] =~= src@.subrange(
            start as int,
            start as int + i + 1,
        ));
        i = i + 1;
    }
    r
}

/// Compares two byte vectors for equality of their contents.
pub fn vec_eq(a: &Vec<u8>, b: &Vec<u8>) -> (r: bool)
    ensures
        r == (a@ == b@),
{
    if a.len() != b.len() {
        return false;
    }
    let mut i: usize = 0;
    while i < a.len()
        invariant
            i <= a@.len(),
            a@.len() == b@.len(),
            forall|k: int| 0 <= k < i ==> a@[k] == b@[k],
        decreases a@.len() - i,
    {
        if a[i] != b[i] {
            return false;
        }
        i = i + 1;
    }
    assert(a@ =~= b@);
    true
}

/// True iff every byte of `v` is zero.
pub fn is_zero_vec(v: &Vec<u8>) -> (r: bool)
    ensures
        r == all_zero(v@),
{
    let mut i: usize = 0;
    while i < v.len()
        invariant
            i <= v@.len(),
            forall|k: int| 0 <= k < i ==> v@[k] == 0,
        decreases v@.len() - i,
    {
        if v[i] != 0 {
            return false;
        }
        i = i + 1;
    }
    true
}

} // verus!
