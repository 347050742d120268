//! The building blocks of the fixed-size binary records: little-endian
//! integer fields at fixed offsets, runs of 32-bit words, and reserved
//! bytes that are zero.

use vstd::prelude::*;
use vstd::bytes::*;
use vstd::slice::slice_subrange;

verus! {

/// `n` zero bytes.
pub open spec fn zeros(n: nat) -> Seq<u8> {
    Seq::new(n, |i: int| 0u8)
}

/// Every byte at the positions `from..to` is zero.
pub open spec fn all_zero(bytes: Seq<u8>, from: int, to: int) -> bool {
    forall|i: int| from <= i < to ==> #[trigger] bytes[i] == 0
}

/// The `width` bytes that start at `offset`.
pub open spec fn field(bytes: Seq<u8>, offset: int, width: int) -> Seq<u8> {
    bytes.subrange(offset, offset + width)
}

pub open spec fn u16_at(bytes: Seq<u8>, offset: int) -> u16 {
    spec_u16_from_le_bytes(field(bytes, offset, 2))
}

pub open spec fn u32_at(bytes: Seq<u8>, offset: int) -> u32 {
    spec_u32_from_le_bytes(field(bytes, offset, 4))
}

pub open spec fn u64_at(bytes: Seq<u8>, offset: int) -> u64 {
    spec_u64_from_le_bytes(field(bytes, offset, 8))
}

pub open spec fn u128_at(bytes: Seq<u8>, offset: int) -> u128 {
    spec_u128_from_le_bytes(field(bytes, offset, 16))
}

/// The words of `words` in little-endian order, one after another.
pub open spec fn words_bytes(words: Seq<u32>) -> Seq<u8>
    decreases words.len(),
{
    if words.len() == 0 {
        Seq::empty()
    } else {
        words_bytes(words.drop_last()) + spec_u32_to_le_bytes(words.last())
    }
}

/// The `count` words that start at `offset`.
pub open spec fn words_at(bytes: Seq<u8>, offset: int, count: nat) -> Seq<u32> {
    Seq::new(count, |i: int| u32_at(bytes, offset + 4 * i))
}

/// A run of words takes four bytes a word, and each word is found again at
/// its place.
pub proof fn lemma_words_bytes(words: Seq<u32>)
    ensures
        words_bytes(words).len() == 4 * words.len(),
        forall|i: int|
            0 <= i < words.len() ==> #[trigger] u32_at(words_bytes(words), 4 * i) == words[i],
        words_at(words_bytes(words), 0, words.len()) == words,
    decreases words.len(),
{
    lemma_auto_spec_u32_to_from_le_bytes();
    if words.len() > 0 {
        let front = words.drop_last();
        lemma_words_bytes(front);
        let all = words_bytes(words);
        assert forall|i: int| 0 <= i < words.len() implies #[trigger] u32_at(all, 4 * i)
            == words[i] by {
            if i < front.len() {
                assert(field(all, 4 * i, 4) =~= field(words_bytes(front), 4 * i, 4));
                assert(u32_at(words_bytes(front), 4 * i) == front[i]);
            } else {
                assert(field(all, 4 * i, 4) =~= spec_u32_to_le_bytes(words.last()));
            }
        }
    }
    assert(words_at(words_bytes(words), 0, words.len()) =~= words);
}

/// Reading a run of words and writing it again gives the bytes back.
pub proof fn lemma_words_at(bytes: Seq<u8>, offset: int, count: nat)
    requires
        0 <= offset,
        offset + 4 * count <= bytes.len(),
    ensures
        words_bytes(words_at(bytes, offset, count)) == field(bytes, offset, 4 * (count as int)),
    decreases count,
{
    lemma_auto_spec_u32_to_from_le_bytes();
    if count > 0 {
        let before = (count - 1) as nat;
        let n = before as int;
        lemma_words_at(bytes, offset, before);
        assert(words_at(bytes, offset, count).drop_last() =~= words_at(bytes, offset, before));
        assert(field(bytes, offset + 4 * n, 4).len() == 4);
        assert(field(bytes, offset, 4 * n) + field(bytes, offset + 4 * n, 4) =~= field(
            bytes,
            offset,
            4 * (n + 1),
        ));
    } else {
        assert(field(bytes, offset, 0) =~= Seq::<u8>::empty());
    }
}

pub fn read_u16(bytes: &[u8], offset: usize) -> (x: u16)
    requires
        offset + 2 <= bytes@.len(),
    ensures
        x == u16_at(bytes@, offset as int),
{
    let len = bytes.len();
    assert(offset + 2 <= len);
    u16_from_le_bytes(slice_subrange(bytes, offset, offset + 2))
}

pub fn read_u32(bytes: &[u8], offset: usize) -> (x: u32)
    requires
        offset + 4 <= bytes@.len(),
    ensures
        x == u32_at(bytes@, offset as int),
{
    let len = bytes.len();
    assert(offset + 4 <= len);
    u32_from_le_bytes(slice_subrange(bytes, offset, offset + 4))
}

pub fn read_u64(bytes: &[u8], offset: usize) -> (x: u64)
    requires
        offset + 8 <= bytes@.len(),
    ensures
        x == u64_at(bytes@, offset as int),
{
    let len = bytes.len();
    assert(offset + 8 <= len);
    u64_from_le_bytes(slice_subrange(bytes, offset, offset + 8))
}

pub fn read_u128(bytes: &[u8], offset: usize) -> (x: u128)
    requires
        offset + 16 <= bytes@.len(),
    ensures
        x == u128_at(bytes@, offset as int),
{
    let len = bytes.len();
    assert(offset + 16 <= len);
    u128_from_le_bytes(slice_subrange(bytes, offset, offset + 16))
}

/// Reads the `count` words that start at `offset`.
pub fn read_words(bytes: &[u8], offset: usize, count: usize) -> (words: Vec<u32>)
    requires
        offset + 4 * count <= bytes@.len(),
    ensures
        words@ == words_at(bytes@, offset as int, count as nat),
{
    let len = bytes.len();
    let mut words: Vec<u32> = Vec::new();
    let mut i: usize = 0;
    while i < count
        invariant
            i <= count,
            offset + 4 * count <= bytes@.len(),
            len == bytes@.len(),
            words@ == words_at(bytes@, offset as int, i as nat),
        decreases count - i,
    {
        words.push(read_u32(bytes, offset + 4 * i));
        assert(words@ =~= words_at(bytes@, offset as int, (i + 1) as nat));
        i = i + 1;
    }
    words
}

pub fn put_u16(out: &mut Vec<u8>, x: u16)
    ensures
        final(out)@ == old(out)@ + spec_u16_to_le_bytes(x),
        final(out)@.len() == old(out)@.len() + 2,
{
    let mut b = u16_to_le_bytes(x);
    out.append(&mut b);
}

pub fn put_u32(out: &mut Vec<u8>, x: u32)
    ensures
        final(out)@ == old(out)@ + spec_u32_to_le_bytes(x),
        final(out)@.len() == old(out)@.len() + 4,
{
    let mut b = u32_to_le_bytes(x);
    out.append(&mut b);
}

pub fn put_u64(out: &mut Vec<u8>, x: u64)
    ensures
        final(out)@ == old(out)@ + spec_u64_to_le_bytes(x),
        final(out)@.len() == old(out)@.len() + 8,
{
    let mut b = u64_to_le_bytes(x);
    out.append(&mut b);
}

pub fn put_u128(out: &mut Vec<u8>, x: u128)
    ensures
        final(out)@ == old(out)@ + spec_u128_to_le_bytes(x),
        final(out)@.len() == old(out)@.len() + 16,
{
    let mut b = u128_to_le_bytes(x);
    out.append(&mut b);
}

/// Appends the words of `words`.
pub fn put_words(out: &mut Vec<u8>, words: &Vec<u32>)
    ensures
        final(out)@ == old(out)@ + words_bytes(words@),
        final(out)@.len() == old(out)@.len() + 4 * words@.len(),
{
    let mut i: usize = 0;
    assert(words@.take(0) =~= Seq::<u32>::empty());
    assert(out@ =~= old(out)@ + words_bytes(words@.take(0)));
    while i < words.len()
        invariant
            i <= words@.len(),
            out@ == old(out)@ + words_bytes(words@.take(i as int)),
        decreases words@.len() - i,
    {
        let ghost before = out@;
        put_u32(out, words[i]);
        proof {
            assert(words@.take(i + 1).drop_last() =~= words@.take(i as int));
            assert(out@ =~= old(out)@ + words_bytes(words@.take(i + 1)));
        }
        i = i + 1;
    }
    proof {
        assert(words@.take(words@.len() as int) =~= words@);
        lemma_words_bytes(words@);
    }
}

/// Appends `n` zero bytes.
pub fn put_zeros(out: &mut Vec<u8>, n: usize)
    ensures
        final(out)@ == old(out)@ + zeros(n as nat),
        final(out)@.len() == old(out)@.len() + n,
{
    let mut i: usize = 0;
    assert(out@ =~= old(out)@ + zeros(0));
    while i < n
        invariant
            i <= n,
            out@ == old(out)@ + zeros(i as nat),
        decreases n - i,
    {
        out.push(0);
        assert(out@ =~= old(out)@ + zeros((i + 1) as nat));
        i = i + 1;
    }
}

/// Whether every byte at the positions `from..to` is zero.
pub fn is_zero(bytes: &[u8], from: usize, to: usize) -> (yes: bool)
    requires
        from <= to <= bytes@.len(),
    ensures
        yes == all_zero(bytes@, from as int, to as int),
{
    let mut i = from;
    while i < to
        invariant
            from <= i <= to <= bytes@.len(),
            all_zero(bytes@, from as int, i as int),
        decreases to - i,
    {
        if bytes[i] != 0 {
            return false;
        }
        i = i + 1;
    }
    true
}

} // verus!
