//! Copies between byte ranges, and big-endian integers.

use vstd::prelude::*;

verus! {

/// `dst` with the bytes from `at` on replaced by `src`.
pub open spec fn overwritten(dst: Seq<u8>, at: int, src: Seq<u8>) -> Seq<u8> {
    dst.take(at) + src + dst.skip(at + src.len())
}

/// The 16-bit big-endian number of two bytes.
pub open spec fn be16(high: u8, low: u8) -> int {
    high as int * 256 + low as int
}

/// The 32-bit big-endian number of four bytes.
pub open spec fn be32(b0: u8, b1: u8, b2: u8, b3: u8) -> int {
    b0 as int * 0x100_0000 + b1 as int * 0x1_0000 + b2 as int * 0x100 + b3 as int
}

/// Copies `src` over the bytes of `dst` that start at `at`.
pub fn write_bytes(dst: &mut Vec<u8>, at: usize, src: &[u8])
    requires
        at + src@.len() <= old(dst)@.len(),
    ensures
        final(dst)@ == overwritten(old(dst)@, at as int, src@),
{
    let ghost before = dst@;
    let length: usize = dst.len();
    let mut i: usize = 0;
    while i < src.len()
        invariant
            i <= src@.len(),
            at + src@.len() <= before.len(),
            length == before.len(),
            dst@.len() == before.len(),
            forall|j: int|
                0 <= j < dst@.len() ==> dst@[j] == (if at <= j < at + i {
                    src@[j - at]
                } else {
                    before[j]
                }),
        decreases src@.len() - i,
    {
        dst[at + i] = src[i];
        i = i + 1;
    }
    proof {
        assert(dst@ =~= overwritten(before, at as int, src@));
    }
}

/// Copies `src` over all of `dst`, which has the same length.
pub fn copy_bytes(dst: &mut [u8], src: &[u8])
    requires
        old(dst)@.len() == src@.len(),
    ensures
        final(dst)@ == src@,
{
    let mut i: usize = 0;
    while i < src.len()
        invariant
            i <= src@.len(),
            dst@.len() == src@.len(),
            forall|j: int| 0 <= j < i ==> dst@[j] == src@[j],
        decreases src@.len() - i,
    {
        dst[i] = src[i];
        i = i + 1;
    }
    proof {
        assert(dst@ =~= src@);
    }
}

/// Reads the 16-bit big-endian number at `at`.
pub fn read_be16(bytes: &[u8], at: usize) -> (r: u16)
    requires
        at + 2 <= bytes@.len(),
    ensures
        r == be16(bytes@[at as int], bytes@[at + 1]),
{
    bytes[at] as u16 * 256 + bytes[at + 1] as u16
}

/// Returns `count` copies of `value`.
pub fn filled_with<T: Copy>(value: T, count: usize) -> (r: Vec<T>)
    ensures
        r@ == Seq::new(count as nat, |i: int| value),
{
    let mut out: Vec<T> = Vec::with_capacity(count);
    while out.len() < count
        invariant
            out@.len() <= count,
            forall|i: int| 0 <= i < out@.len() ==> (#[trigger] out@[i]) == value,
        decreases count - out@.len(),
    {
        out.push(value);
    }
    assert(out@ =~= Seq::new(count as nat, |i: int| value));
    out
}

/// Bytes are written where they are to stand, and everything else stays.
pub proof fn law_writes_change_only_their_place(at: usize, src: &[u8])
    ensures
        forall|dst: &mut Vec<u8>| #[trigger]
            call_ensures(write_bytes, (dst, at, src), ()) && at + src@.len() <= dst@.len() ==> {
                &&& final(dst)@.len() == dst@.len()
                &&& forall|i: int|
                    0 <= i < src@.len() ==> final(dst)@[at + i] == #[trigger] src@[i]
                &&& forall|i: int|
                    (0 <= i < at || at + src@.len() <= i < dst@.len()) ==> #[trigger] final(dst)@[i]
                        == dst@[i]
            },
        forall|dst: &mut [u8]| #[trigger]
            call_ensures(copy_bytes, (dst, src), ()) ==> final(dst)@ == src@,
{
}

/// Two bytes are read most significant first, and a repeated value stands everywhere.
pub proof fn law_words_are_read_high_byte_first<T: Copy>(
    bytes: &[u8],
    at: usize,
    r: u16,
    value: T,
    count: usize,
    filled: Vec<T>,
)
    ensures
        call_ensures(read_be16, (bytes, at), r) ==> r == bytes@[at as int] * 256 + bytes@[at + 1],
        call_ensures(filled_with::<T>, (value, count), filled) ==> filled@.len() == count && forall|
            i: int,
        |
            0 <= i < count ==> #[trigger] filled@[i] == value,
{
}

} // verus!
