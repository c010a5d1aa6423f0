//! Little-endian integer codecs and the blob builder that asset buffers are
//! assembled with.

use vstd::prelude::*;

verus! {

/// The little-endian byte image of a 32-bit integer.
pub open spec fn spec_u32_le(x: u32) -> Seq<u8> {
    seq![
        (x & 0xff) as u8,
        ((x >> 8) & 0xff) as u8,
        ((x >> 16) & 0xff) as u8,
        ((x >> 24) & 0xff) as u8,
    ]
}

/// The 32-bit integer a 4-byte little-endian image denotes.
pub open spec fn spec_u32_of(b: Seq<u8>) -> u32
    recommends
        b.len() == 4,
{
    (b[0] as u32) | ((b[1] as u32) << 8) | ((b[2] as u32) << 16) | ((b[3] as u32) << 24)
}

/// The little-endian byte image of a 64-bit integer.
pub open spec fn spec_u64_le(x: u64) -> Seq<u8> {
    seq![
        (x & 0xff) as u8,
        ((x >> 8) & 0xff) as u8,
        ((x >> 16) & 0xff) as u8,
        ((x >> 24) & 0xff) as u8,
        ((x >> 32) & 0xff) as u8,
        ((x >> 40) & 0xff) as u8,
        ((x >> 48) & 0xff) as u8,
        ((x >> 56) & 0xff) as u8,
    ]
}

/// The 64-bit integer an 8-byte little-endian image denotes.
pub open spec fn spec_u64_of(b: Seq<u8>) -> u64
    recommends
        b.len() == 8,
{
    (b[0] as u64) | ((b[1] as u64) << 8) | ((b[2] as u64) << 16) | ((b[3] as u64) << 24) | (
    (b[4] as u64) << 32) | ((b[5] as u64) << 40) | ((b[6] as u64) << 48) | ((b[7] as u64) << 56)
}

/// Decoding an encoded 32-bit integer gives the integer back.
pub proof fn lemma_u32_roundtrip(x: u32)
    ensures
        spec_u32_of(spec_u32_le(x)) == x,
{
    assert(((x & 0xff) as u8 as u32) | (((x >> 8) & 0xff) as u8 as u32) << 8 | (((x >> 16)
        & 0xff) as u8 as u32) << 16 | (((x >> 24) & 0xff) as u8 as u32) << 24 == x)
        by (bit_vector);
}

/// Decoding an encoded 64-bit integer gives the integer back.
pub proof fn lemma_u64_roundtrip(x: u64)
    ensures
        spec_u64_of(spec_u64_le(x)) == x,
{
    assert(((x & 0xff) as u8 as u64) | (((x >> 8) & 0xff) as u8 as u64) << 8 | (((x >> 16)
        & 0xff) as u8 as u64) << 16 | (((x >> 24) & 0xff) as u8 as u64) << 24 | (((x >> 32)
        & 0xff) as u8 as u64) << 32 | (((x >> 40) & 0xff) as u8 as u64) << 40 | (((x >> 48)
        & 0xff) as u8 as u64) << 48 | (((x >> 56) & 0xff) as u8 as u64) << 56 == x)
        by (bit_vector);
}

/// Encode a 32-bit integer in its 4-byte little-endian image.
pub fn u32_to_le(x: u32) -> (r: [u8; 4])
    ensures
        r@ == spec_u32_le(x),
{
    let r = [
        (x & 0xff) as u8,
        ((x >> 8) & 0xff) as u8,
        ((x >> 16) & 0xff) as u8,
        ((x >> 24) & 0xff) as u8,
    ];
    proof {
        assert(r@ =~= spec_u32_le(x));
    }
    r
}

/// Encode a 64-bit integer in its 8-byte little-endian image.
pub fn u64_to_le(x: u64) -> (r: [u8; 8])
    ensures
        r@ == spec_u64_le(x),
{
    let r = [
        (x & 0xff) as u8,
        ((x >> 8) & 0xff) as u8,
        ((x >> 16) & 0xff) as u8,
        ((x >> 24) & 0xff) as u8,
        ((x >> 32) & 0xff) as u8,
        ((x >> 40) & 0xff) as u8,
        ((x >> 48) & 0xff) as u8,
        ((x >> 56) & 0xff) as u8,
    ];
    proof {
        assert(r@ =~= spec_u64_le(x));
    }
    r
}

/// Read the 32-bit little-endian integer at `offset`.
pub fn u32_from_le(bytes: &Vec<u8>, offset: usize) -> (r: u32)
    requires
        offset + 4 <= bytes@.len(),
    ensures
        r == spec_u32_of(bytes@.subrange(offset as int, offset + 4)),
{
    let _len = bytes.len();
    let r = (bytes[offset] as u32) | ((bytes[offset + 1] as u32) << 8) | ((bytes[offset + 2]
        as u32) << 16) | ((bytes[offset + 3] as u32) << 24);
    proof {
        assert(bytes@.subrange(offset as int, offset + 4)[0] == bytes@[offset as int]);
        assert(bytes@.subrange(offset as int, offset + 4)[1] == bytes@[offset + 1]);
        assert(bytes@.subrange(offset as int, offset + 4)[2] == bytes@[offset + 2]);
        assert(bytes@.subrange(offset as int, offset + 4)[3] == bytes@[offset + 3]);
    }
    r
}

/// Read the 64-bit little-endian integer at `offset`.
pub fn u64_from_le(bytes: &Vec<u8>, offset: usize) -> (r: u64)
    requires
        offset + 8 <= bytes@.len(),
    ensures
        r == spec_u64_of(bytes@.subrange(offset as int, offset + 8)),
{
    let _len = bytes.len();
    let r = (bytes[offset] as u64) | ((bytes[offset + 1] as u64) << 8) | ((bytes[offset + 2]
        as u64) << 16) | ((bytes[offset + 3] as u64) << 24) | ((bytes[offset + 4] as u64) << 32)
        | ((bytes[offset + 5] as u64) << 40) | ((bytes[offset + 6] as u64) << 48) | ((bytes[offset
        + 7] as u64) << 56);
    proof {
        let b = bytes@.subrange(offset as int, offset + 8);
        assert(b[0] == bytes@[offset as int]);
        assert(b[1] == bytes@[offset + 1]);
        assert(b[2] == bytes@[offset + 2]);
        assert(b[3] == bytes@[offset + 3]);
        assert(b[4] == bytes@[offset + 4]);
        assert(b[5] == bytes@[offset + 5]);
        assert(b[6] == bytes@[offset + 6]);
        assert(b[7] == bytes@[offset + 7]);
    }
    r
}

/// The next offset at or after `n` aligned to a multiple of `align`.
pub open spec fn spec_align_up(n: nat, align: nat) -> nat
    recommends
        align >= 1,
{
    (n + ((align - (n % align)) % (align as int))) as nat
}

/// Aligning lands on a multiple, never before `n`, and less than one whole
/// `align` past it.
pub proof fn lemma_align_up(n: nat, align: nat)
    requires
        align >= 1,
    ensures
        spec_align_up(n, align) % align == 0,
        n <= spec_align_up(n, align) < n + align,
{
    let ni = n as int;
    let ai = align as int;
    let r = ni % ai;
    assert(0 <= r < ai) by {
        vstd::arithmetic::div_mod::lemma_mod_bound(ni, ai);
    }
    assert(ai % ai == 0) by {
        vstd::arithmetic::div_mod::lemma_mod_self_0(ai);
    }
    if r == 0 {
        assert(spec_align_up(n, align) == n);
    } else {
        assert((ai - r) % ai == ai - r) by {
            vstd::arithmetic::div_mod::lemma_small_mod((ai - r) as nat, align);
        }
        assert((ni + (ai - r)) % ai == 0) by {
            vstd::arithmetic::div_mod::lemma_add_mod_noop(ni, ai - r, ai);
            assert(((ni % ai) + ((ai - r) % ai)) % ai == (ni + (ai - r)) % ai);
            assert((ni % ai) + ((ai - r) % ai) == ai);
        }
    }
}

/// Builder for the contiguous byte blob an asset buffer is packed into:
/// records are appended at aligned offsets and a header reserved up front is
/// patched in at the end.
pub struct BlobBuilder {
    pub buffer: Vec<u8>,
}

impl View for BlobBuilder {
    type V = Seq<u8>;

    closed spec fn view(&self) -> Seq<u8> {
        self.buffer@
    }
}

impl BlobBuilder {
    /// An empty blob.
    pub fn new() -> (r: Self)
        ensures
            r@ =~= Seq::<u8>::empty(),
    {
        BlobBuilder { buffer: Vec::new() }
    }

    /// Current length of the blob.
    pub fn len(&self) -> (r: usize)
        ensures
            r == self@.len(),
    {
        self.buffer.len()
    }

    /// Pad with zero bytes to a multiple of `align`.
    pub fn align(&mut self, align: usize)
        requires
            1 <= align,
            old(self)@.len() + align <= usize::MAX,
        ensures
            final(self)@.len() == spec_align_up(old(self)@.len(), align as nat),
            final(self)@.subrange(0, old(self)@.len() as int) == old(self)@,
            forall|i: int| old(self)@.len() <= i < final(self)@.len() ==> final(self)@[i] == 0u8,
    {
        proof {
            lemma_align_up(old(self)@.len(), align as nat);
        }
        let pad = (align - (self.buffer.len() % align)) % align;
        let ghost target = spec_align_up(old(self)@.len(), align as nat);
        let mut i: usize = 0;
        while i < pad
            invariant
                i <= pad,
                old(self)@.len() + pad == target,
                target <= usize::MAX,
                self@.len() == old(self)@.len() + i,
                self@.subrange(0, old(self)@.len() as int) == old(self)@,
                forall|j: int| old(self)@.len() <= j < self@.len() ==> self@[j] == 0u8,
            decreases pad - i,
        {
            self.buffer.push(0);
            proof {
                assert(self@.subrange(0, old(self)@.len() as int) =~= old(self)@);
            }
            i = i + 1;
        }
    }

    /// Align, then append `size` zero bytes to be patched later; returns the
    /// offset of the reserved region.
    pub fn reserve(&mut self, size: usize, align: usize) -> (offset: usize)
        requires
            1 <= align,
            old(self)@.len() + align + size <= usize::MAX,
        ensures
            offset == spec_align_up(old(self)@.len(), align as nat),
            final(self)@.len() == offset + size,
            final(self)@.subrange(0, old(self)@.len() as int) == old(self)@,
            forall|i: int| old(self)@.len() <= i < final(self)@.len() ==> final(self)@[i] == 0u8,
    {
        proof {
            lemma_align_up(old(self)@.len(), align as nat);
        }
        self.align(align);
        let offset = self.buffer.len();
        let ghost mid = self@;
        let mut i: usize = 0;
        while i < size
            invariant
                i <= size,
                offset == mid.len(),
                offset + size <= usize::MAX,
                self@.len() == offset + i,
                self@.subrange(0, offset as int) == mid,
                forall|j: int| offset <= j < self@.len() ==> self@[j] == 0u8,
            decreases size - i,
        {
            self.buffer.push(0);
            proof {
                assert(self@.subrange(0, offset as int) =~= mid);
            }
            i = i + 1;
        }
        proof {
            assert(self@.subrange(0, old(self)@.len() as int) =~= old(self)@);
            assert forall|j: int| old(self)@.len() <= j < self@.len() implies self@[j] == 0u8 by {
                if j < offset {
                    assert(self@.subrange(0, offset as int)[j] == self@[j]);
                    assert(mid[j] == 0u8);
                }
            }
        }
        offset
    }

    /// Append raw bytes; returns the offset they start at.
    pub fn push_bytes(&mut self, data: &Vec<u8>) -> (offset: usize)
        requires
            old(self)@.len() + data@.len() <= usize::MAX,
        ensures
            offset == old(self)@.len(),
            final(self)@ == old(self)@ + data@,
    {
        let offset = self.buffer.len();
        let n = data.len();
        let mut i: usize = 0;
        while i < n
            invariant
                i <= n,
                n == data@.len(),
                offset == old(self)@.len(),
                self@ == old(self)@ + data@.subrange(0, i as int),
            decreases n - i,
        {
            self.buffer.push(data[i]);
            proof {
                assert(self@ =~= old(self)@ + data@.subrange(0, i + 1));
            }
            i = i + 1;
        }
        proof {
            assert(data@.subrange(0, n as int) =~= data@);
        }
        offset
    }

    /// Align to `align`, then append raw bytes; returns the offset they
    /// start at.
    pub fn push_bytes_aligned(&mut self, data: &Vec<u8>, align: usize) -> (offset: usize)
        requires
            1 <= align,
            old(self)@.len() + align + data@.len() <= usize::MAX,
        ensures
            offset == spec_align_up(old(self)@.len(), align as nat),
            final(self)@.len() == offset + data@.len(),
            final(self)@.subrange(0, old(self)@.len() as int) == old(self)@,
            forall|i: int| old(self)@.len() <= i < offset ==> final(self)@[i] == 0u8,
            final(self)@.subrange(offset as int, offset + data@.len()) == data@,
    {
        proof {
            lemma_align_up(old(self)@.len(), align as nat);
        }
        self.align(align);
        let ghost mid = self@;
        let offset = self.push_bytes(data);
        proof {
            assert(self@.subrange(0, old(self)@.len() as int) =~= old(self)@);
            assert(self@.subrange(offset as int, offset + data@.len()) =~= data@);
        }
        offset
    }

    /// Overwrite bytes at a reserved offset.
    pub fn write_at(&mut self, offset: usize, data: &Vec<u8>)
        requires
            offset + data@.len() <= old(self)@.len(),
        ensures
            final(self)@.len() == old(self)@.len(),
            final(self)@.subrange(offset as int, offset + data@.len()) == data@,
            forall|i: int| 0 <= i < old(self)@.len() && !(offset <= i < offset + data@.len())
                ==> final(self)@[i] == old(self)@[i],
    {
        let n = data.len();
        let cap = self.buffer.len();
        let mut i: usize = 0;
        while i < n
            invariant
                i <= n,
                n == data@.len(),
                offset + n <= cap,
                cap == self@.len(),
                self@.len() == old(self)@.len(),
                forall|j: int| 0 <= j < i ==> self@[offset + j] == data@[j],
                forall|j: int| 0 <= j < self@.len() && !(offset <= j < offset + i)
                    ==> self@[j] == old(self)@[j],
            decreases n - i,
        {
            let b = data[i];
            self.buffer[offset + i] = b;
            i = i + 1;
        }
        proof {
            assert(self@.subrange(offset as int, offset + data@.len()) =~= data@);
        }
    }

    /// Hand the finished blob over.
    pub fn finish(self) -> (r: Vec<u8>)
        ensures
            r@ == self@,
    {
        self.buffer
    }
}

} // verus!
