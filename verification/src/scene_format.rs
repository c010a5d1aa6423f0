//! The packed scene asset buffer: one contiguous little-endian blob holding
//! a scene header, node/primitive/UV/texture header tables, material and
//! sampler records, and the raw vertex, index, UV and texture payloads.
//!
//! The header sits at offset 0; every table and payload region is reached
//! through the byte offsets and element counts it records.

use vstd::prelude::*;
use crate::bytes::{
    lemma_align_up, spec_u32_le, spec_u32_of, spec_u64_le, spec_u64_of, u32_from_le, u32_to_le,
    u64_from_le, u64_to_le, BlobBuilder,
};
use crate::records::{MaterialRecord, Sampler, TextureFormat, TextureSlot, TextureView};

verus! {

/// Size of the scene header in bytes: 20 fields of 8 bytes.
pub const SCENE_HEADER_BYTES: usize = 160;

/// Size of one node header: ten 4-byte floats plus two 8-byte fields.
pub const NODE_HEADER_BYTES: usize = 56;

/// Size of one primitive header: seven 8-byte fields.
pub const PRIMITIVE_HEADER_BYTES: usize = 56;

/// Size of one texture-coordinate header: two 8-byte fields.
pub const TEXCOORD_HEADER_BYTES: usize = 16;

/// Size of one texture header.
pub const TEXTURE_HEADER_BYTES: usize = 32;

/// Size of one packed material record.
pub const MATERIAL_BYTES: usize = 132;

/// Size of one packed sampler record.
pub const SAMPLER_BYTES: usize = 8;

/// Byte stride of one packed mesh vertex (position, normal, tangent).
pub const VERTEX_BYTES: usize = 40;

/// Byte stride of one packed texture coordinate.
pub const TEXCOORD_BYTES: usize = 8;

/// Locations and element counts of every region of a scene buffer.
#[derive(Clone, Copy, Debug, PartialEq)]
pub struct SceneHeader {
    pub node_header_offset: usize,
    pub node_header_count: usize,
    pub primitive_header_offset: usize,
    pub primitive_header_count: usize,
    pub uv_header_offset: usize,
    pub uv_header_count: usize,
    pub texture_header_offset: usize,
    pub texture_header_count: usize,
    pub materials_offset: usize,
    pub materials_count: usize,
    pub samplers_offset: usize,
    pub samplers_count: usize,
    pub vertices_offset: usize,
    pub vertices_count: usize,
    pub indices_offset: usize,
    pub indices_count: usize,
    pub uv_sets_offset: usize,
    pub uv_sets_count: usize,
    pub texture_offset: usize,
    pub texture_size: usize,
}

/// One mesh node: its decomposed transform (as float bit patterns) and the
/// contiguous run of primitive headers it draws.
#[derive(Clone, Copy, Debug, PartialEq)]
pub struct NodeHeader {
    pub position: [u32; 3],
    pub rotation: [u32; 4],
    pub scale: [u32; 3],
    pub primitive_header_offset: usize,
    pub primitive_count: usize,
}

/// One primitive: byte offsets and element counts of its vertex, index and
/// UV-header runs, and the material it uses.
#[derive(Clone, Copy, Debug, PartialEq)]
pub struct PrimitiveHeader {
    pub vertex_offset: usize,
    pub vertex_count: usize,
    pub index_offset: usize,
    pub index_count: usize,
    pub uv_header_offset: usize,
    pub uv_set_count: usize,
    pub material_index: usize,
}

/// One UV set: its byte offset inside the UV payload and its element count.
#[derive(Clone, Copy, Debug, PartialEq)]
pub struct TexCoordHeader {
    pub offset: usize,
    pub count: usize,
}

/// One stored texture: its byte range inside the texture payload, its pixel
/// format and its dimensions.
#[derive(Clone, Copy, Debug, PartialEq)]
pub struct TextureHeader {
    pub offset: usize,
    pub size: usize,
    pub format: TextureFormat,
    pub width: u32,
    pub height: u32,
}

/// The little-endian image of the 20 scene header fields.
pub open spec fn spec_scene_header_bytes(h: SceneHeader) -> Seq<u8> {
    spec_u64_le(h.node_header_offset as u64) + spec_u64_le(h.node_header_count as u64)
        + spec_u64_le(h.primitive_header_offset as u64) + spec_u64_le(
        h.primitive_header_count as u64,
    ) + spec_u64_le(h.uv_header_offset as u64) + spec_u64_le(h.uv_header_count as u64)
        + spec_u64_le(h.texture_header_offset as u64) + spec_u64_le(h.texture_header_count as u64)
        + spec_u64_le(h.materials_offset as u64) + spec_u64_le(h.materials_count as u64)
        + spec_u64_le(h.samplers_offset as u64) + spec_u64_le(h.samplers_count as u64)
        + spec_u64_le(h.vertices_offset as u64) + spec_u64_le(h.vertices_count as u64)
        + spec_u64_le(h.indices_offset as u64) + spec_u64_le(h.indices_count as u64)
        + spec_u64_le(h.uv_sets_offset as u64) + spec_u64_le(h.uv_sets_count as u64)
        + spec_u64_le(h.texture_offset as u64) + spec_u64_le(h.texture_size as u64)
}

/// Encode the scene header.
pub fn encode_scene_header(h: &SceneHeader) -> (r: Vec<u8>)
    ensures
        r@ == spec_scene_header_bytes(*h),
        r@.len() == SCENE_HEADER_BYTES,
{
    let mut r: Vec<u8> = Vec::new();
    push_u64(&mut r, h.node_header_offset as u64);
    push_u64(&mut r, h.node_header_count as u64);
    push_u64(&mut r, h.primitive_header_offset as u64);
    push_u64(&mut r, h.primitive_header_count as u64);
    push_u64(&mut r, h.uv_header_offset as u64);
    push_u64(&mut r, h.uv_header_count as u64);
    push_u64(&mut r, h.texture_header_offset as u64);
    push_u64(&mut r, h.texture_header_count as u64);
    push_u64(&mut r, h.materials_offset as u64);
    push_u64(&mut r, h.materials_count as u64);
    push_u64(&mut r, h.samplers_offset as u64);
    push_u64(&mut r, h.samplers_count as u64);
    push_u64(&mut r, h.vertices_offset as u64);
    push_u64(&mut r, h.vertices_count as u64);
    push_u64(&mut r, h.indices_offset as u64);
    push_u64(&mut r, h.indices_count as u64);
    push_u64(&mut r, h.uv_sets_offset as u64);
    push_u64(&mut r, h.uv_sets_count as u64);
    push_u64(&mut r, h.texture_offset as u64);
    push_u64(&mut r, h.texture_size as u64);
    proof {
        assert(r@ =~= spec_scene_header_bytes(*h));
    }
    r
}

/// Append the little-endian image of a 64-bit integer.
pub(crate) fn push_u64(out: &mut Vec<u8>, x: u64)
    requires
        old(out)@.len() + 8 <= usize::MAX,
    ensures
        final(out)@ == old(out)@ + spec_u64_le(x),
{
    let b = u64_to_le(x);
    out.push(b[0]);
    out.push(b[1]);
    out.push(b[2]);
    out.push(b[3]);
    out.push(b[4]);
    out.push(b[5]);
    out.push(b[6]);
    out.push(b[7]);
    proof {
        assert(final(out)@ =~= old(out)@ + spec_u64_le(x));
    }
}

/// Append the little-endian image of a 32-bit integer.
pub(crate) fn push_u32(out: &mut Vec<u8>, x: u32)
    requires
        old(out)@.len() + 4 <= usize::MAX,
    ensures
        final(out)@ == old(out)@ + spec_u32_le(x),
{
    let b = u32_to_le(x);
    out.push(b[0]);
    out.push(b[1]);
    out.push(b[2]);
    out.push(b[3]);
    proof {
        assert(final(out)@ =~= old(out)@ + spec_u32_le(x));
    }
}

/// The 64-bit field at index `i` of a header region starting at `offset`.
pub open spec fn spec_field64(b: Seq<u8>, offset: int, i: int) -> u64 {
    spec_u64_of(b.subrange(offset + 8 * i, offset + 8 * i + 8))
}

/// The 32-bit field at byte offset `o` inside a buffer.
pub open spec fn spec_field32(b: Seq<u8>, o: int) -> u32 {
    spec_u32_of(b.subrange(o, o + 4))
}

/// The decoded scene header of a buffer: present when the buffer holds at
/// least the header and every offset and count fits the address space.
pub open spec fn spec_decode_scene_header(b: Seq<u8>) -> Option<SceneHeader> {
    if b.len() >= SCENE_HEADER_BYTES && (forall|i: int| 0 <= i < 20
        ==> spec_field64(b, 0, i) <= usize::MAX) {
        Some(
            SceneHeader {
                node_header_offset: spec_field64(b, 0, 0) as usize,
                node_header_count: spec_field64(b, 0, 1) as usize,
                primitive_header_offset: spec_field64(b, 0, 2) as usize,
                primitive_header_count: spec_field64(b, 0, 3) as usize,
                uv_header_offset: spec_field64(b, 0, 4) as usize,
                uv_header_count: spec_field64(b, 0, 5) as usize,
                texture_header_offset: spec_field64(b, 0, 6) as usize,
                texture_header_count: spec_field64(b, 0, 7) as usize,
                materials_offset: spec_field64(b, 0, 8) as usize,
                materials_count: spec_field64(b, 0, 9) as usize,
                samplers_offset: spec_field64(b, 0, 10) as usize,
                samplers_count: spec_field64(b, 0, 11) as usize,
                vertices_offset: spec_field64(b, 0, 12) as usize,
                vertices_count: spec_field64(b, 0, 13) as usize,
                indices_offset: spec_field64(b, 0, 14) as usize,
                indices_count: spec_field64(b, 0, 15) as usize,
                uv_sets_offset: spec_field64(b, 0, 16) as usize,
                uv_sets_count: spec_field64(b, 0, 17) as usize,
                texture_offset: spec_field64(b, 0, 18) as usize,
                texture_size: spec_field64(b, 0, 19) as usize,
            },
        )
    } else {
        None
    }
}

/// Read one 64-bit header field and check that it fits the address space.
fn read_field64(bytes: &Vec<u8>, offset: usize, i: usize) -> (r: Option<usize>)
    requires
        offset + 8 * i + 8 <= bytes@.len(),
    ensures
        match r {
            Some(v) => spec_field64(bytes@, offset as int, i as int) <= usize::MAX
                && v == spec_field64(bytes@, offset as int, i as int) as usize,
            None => spec_field64(bytes@, offset as int, i as int) > usize::MAX,
        },
{
    let _len = bytes.len();
    let v = u64_from_le(bytes, offset + 8 * i);
    if v <= usize::MAX as u64 {
        Some(v as usize)
    } else {
        None
    }
}

/// A packed scene asset, as produced by the loading collaborator and read
/// back by the render side.
pub struct SceneBuffer(Vec<u8>);

impl View for SceneBuffer {
    type V = Seq<u8>;

    closed spec fn view(&self) -> Seq<u8> {
        self.0@
    }
}

impl SceneBuffer {
    /// Wrap received bytes.
    pub fn from_bytes(bytes: Vec<u8>) -> (r: Self)
        ensures
            r@ == bytes@,
    {
        SceneBuffer(bytes)
    }

    /// The raw bytes of the buffer.
    pub fn buffer(&self) -> (r: &Vec<u8>)
        ensures
            r@ == self@,
    {
        &self.0
    }

    /// Decode the scene header at offset 0.
    #[verifier::rlimit(50)]
    pub fn scene_header(&self) -> (r: Option<SceneHeader>)
        ensures
            r == spec_decode_scene_header(self@),
    {
        if self.0.len() < SCENE_HEADER_BYTES {
            proof {
                assert(spec_decode_scene_header(self@) is None);
            }
            return None;
        }
        let n = self.0.len();
        let mut fields: Vec<usize> = Vec::new();
        let mut i: usize = 0;
        while i < 20
            invariant
                i <= 20,
                n == self@.len(),
                self@.len() >= SCENE_HEADER_BYTES,
                fields@.len() == i,
                forall|j: int| 0 <= j < i ==> #[trigger] spec_field64(self@, 0, j) <= usize::MAX,
                forall|j: int| 0 <= j < i ==> #[trigger] fields@[j] == spec_field64(
                    self@,
                    0,
                    j,
                ) as usize,
            decreases 20 - i,
        {
            match read_field64(&self.0, 0, i) {
                Some(v) => {
                    let ghost pre = fields@;
                    fields.push(v);
                    proof {
                        assert forall|j: int| 0 <= j < i + 1 implies #[trigger] spec_field64(
                            self@,
                            0,
                            j,
                        ) <= usize::MAX && fields@[j] == spec_field64(self@, 0, j) as usize by {
                            if j == i {
                                assert(fields@[j] == v);
                                assert(v == spec_field64(self.0@, 0, i as int) as usize);
                            } else {
                                assert(pre[j] == spec_field64(self@, 0, j) as usize);
                                assert(fields@[j] == pre[j]);
                            }
                        }
                    }
                }
                None => {
                    proof {
                        assert(spec_field64(self@, 0, i as int) > usize::MAX);
                        assert(spec_decode_scene_header(self@) is None);
                    }
                    return None;
                }
            }
            i = i + 1;
        }
        let h = SceneHeader {
            node_header_offset: fields[0],
            node_header_count: fields[1],
            primitive_header_offset: fields[2],
            primitive_header_count: fields[3],
            uv_header_offset: fields[4],
            uv_header_count: fields[5],
            texture_header_offset: fields[6],
            texture_header_count: fields[7],
            materials_offset: fields[8],
            materials_count: fields[9],
            samplers_offset: fields[10],
            samplers_count: fields[11],
            vertices_offset: fields[12],
            vertices_count: fields[13],
            indices_offset: fields[14],
            indices_count: fields[15],
            uv_sets_offset: fields[16],
            uv_sets_count: fields[17],
            texture_offset: fields[18],
            texture_size: fields[19],
        };
        Some(h)
    }

    /// Copy `len` payload bytes starting at `offset`, when they are in
    /// bounds.
    pub fn slice_bytes(&self, offset: usize, len: usize) -> (r: Option<Vec<u8>>)
        ensures
            match r {
                Some(v) => offset + len <= self@.len() && v@ == self@.subrange(
                    offset as int,
                    offset + len,
                ),
                None => offset + len > self@.len(),
            },
    {
        let n = self.0.len();
        if len > n || offset > n - len {
            return None;
        }
        let mut v: Vec<u8> = Vec::new();
        let mut i: usize = 0;
        while i < len
            invariant
                i <= len,
                n == self@.len(),
                offset + len <= self@.len(),
                v@ == self@.subrange(offset as int, offset + i),
            decreases len - i,
        {
            v.push(self.0[offset + i]);
            proof {
                assert(v@ =~= self@.subrange(offset as int, offset + i + 1));
            }
            i = i + 1;
        }
        Some(v)
    }

    /// Decode the node header table.
    pub fn node_headers(&self) -> (r: Option<Vec<NodeHeader>>)
        ensures
            match r {
                Some(v) => spec_decode_scene_header(self@) matches Some(h)
                    && spec_node_table_valid(self@) && {
                    &&& v@.len() == h.node_header_count
                    &&& forall|j: int| 0 <= j < v@.len() ==> #[trigger] v@[j]
                        == spec_decode_node_header(
                            self@,
                            h.node_header_offset + NODE_HEADER_BYTES * j,
                        )
                },
                None => !spec_node_table_valid(self@),
            },
    {
        let h = match self.scene_header() {
            Some(h) => h,
            None => {
                return None;
            }
        };
        let n = self.0.len();
        if h.node_header_count > usize::MAX / NODE_HEADER_BYTES {
            proof {
                lemma_count_overflows(h.node_header_count, NODE_HEADER_BYTES);
            }
            return None;
        }
        let span = NODE_HEADER_BYTES * h.node_header_count;
        if span > n || h.node_header_offset > n - span {
            return None;
        }
        let mut v: Vec<NodeHeader> = Vec::new();
        let mut j: usize = 0;
        while j < h.node_header_count
            invariant
                j <= h.node_header_count,
                n == self@.len(),
                h.node_header_offset + NODE_HEADER_BYTES * h.node_header_count <= self@.len(),
                v@.len() == j,
                forall|t: int| 0 <= t < j ==> #[trigger] v@[t] == spec_decode_node_header(
                    self@,
                    h.node_header_offset + NODE_HEADER_BYTES * t,
                ),
            decreases h.node_header_count - j,
        {
            let base = h.node_header_offset + NODE_HEADER_BYTES * j;
            let nh = self.decode_node_header_at(base);
            v.push(nh);
            j = j + 1;
        }
        Some(v)
    }

    /// Decode one node header at a byte offset.
    fn decode_node_header_at(&self, base: usize) -> (r: NodeHeader)
        requires
            base + NODE_HEADER_BYTES <= self@.len(),
        ensures
            r == spec_decode_node_header(self@, base as int),
    {
        let _len = self.0.len();
        let position = [
            u32_from_le(&self.0, base),
            u32_from_le(&self.0, base + 4),
            u32_from_le(&self.0, base + 8),
        ];
        let rotation = [
            u32_from_le(&self.0, base + 12),
            u32_from_le(&self.0, base + 16),
            u32_from_le(&self.0, base + 20),
            u32_from_le(&self.0, base + 24),
        ];
        let scale = [
            u32_from_le(&self.0, base + 28),
            u32_from_le(&self.0, base + 32),
            u32_from_le(&self.0, base + 36),
        ];
        let po = u64_from_le(&self.0, base + 40);
        let pc = u64_from_le(&self.0, base + 48);
        let r = NodeHeader {
            position,
            rotation,
            scale,
            primitive_header_offset: truncate_usize(po),
            primitive_count: truncate_usize(pc),
        };
        proof {
            assert(r.position@ =~= spec_decode_node_header(self@, base as int).position@);
            assert(r.rotation@ =~= spec_decode_node_header(self@, base as int).rotation@);
            assert(r.scale@ =~= spec_decode_node_header(self@, base as int).scale@);
            assert(r.position == spec_decode_node_header(self@, base as int).position);
            assert(r.rotation == spec_decode_node_header(self@, base as int).rotation);
            assert(r.scale == spec_decode_node_header(self@, base as int).scale);
        }
        r
    }
}

/// A table whose element count exceeds `usize::MAX / size` cannot lie
/// inside any addressable buffer.
pub proof fn lemma_count_overflows(count: usize, size: usize)
    requires
        size >= 1,
        count > usize::MAX as int / size as int,
    ensures
        size * count > usize::MAX,
{
    let m = usize::MAX as int;
    let q = m / size as int;
    vstd::arithmetic::div_mod::lemma_fundamental_div_mod(m, size as int);
    vstd::arithmetic::div_mod::lemma_mod_bound(m, size as int);
    assert(count >= q + 1);
    assert(size * count >= size * (q + 1)) by (nonlinear_arith)
        requires
            size >= 1,
            count >= q + 1,
        ;
    assert(size as int * (q + 1) == size as int * q + size as int) by (nonlinear_arith);
}

/// Whether the node header table is readable: the scene header decodes and
/// the table lies inside the buffer.
pub open spec fn spec_node_table_valid(b: Seq<u8>) -> bool {
    spec_decode_scene_header(b) matches Some(h) && h.node_header_offset + NODE_HEADER_BYTES
        * h.node_header_count <= b.len()
}

/// Whether the primitive header table is readable.
pub open spec fn spec_primitive_table_valid(b: Seq<u8>) -> bool {
    spec_decode_scene_header(b) matches Some(h) && h.primitive_header_offset
        + PRIMITIVE_HEADER_BYTES * h.primitive_header_count <= b.len()
}

/// Whether the texture-coordinate header table is readable.
pub open spec fn spec_texcoord_table_valid(b: Seq<u8>) -> bool {
    spec_decode_scene_header(b) matches Some(h) && h.uv_header_offset + TEXCOORD_HEADER_BYTES
        * h.uv_header_count <= b.len()
}

/// Whether the texture header table is readable.
pub open spec fn spec_texture_table_valid(b: Seq<u8>) -> bool {
    spec_decode_scene_header(b) matches Some(h) && h.texture_header_offset + TEXTURE_HEADER_BYTES
        * h.texture_header_count <= b.len()
}

/// Whether the material record table is readable.
pub open spec fn spec_material_table_valid(b: Seq<u8>) -> bool {
    spec_decode_scene_header(b) matches Some(h) && h.materials_offset + MATERIAL_BYTES
        * h.materials_count <= b.len()
}

/// Whether the sampler record table is readable.
pub open spec fn spec_sampler_table_valid(b: Seq<u8>) -> bool {
    spec_decode_scene_header(b) matches Some(h) && h.samplers_offset + SAMPLER_BYTES
        * h.samplers_count <= b.len()
}

/// Clamp a stored 64-bit offset or count into the address space.
pub open spec fn spec_truncate_usize(x: u64) -> usize {
    if x <= usize::MAX {
        x as usize
    } else {
        usize::MAX as usize
    }
}

/// Clamp a stored 64-bit offset or count into the address space; ranges
/// clamped this way fail the subsequent bounds checks rather than wrapping.
fn truncate_usize(x: u64) -> (r: usize)
    ensures
        r == spec_truncate_usize(x),
{
    if x <= usize::MAX as u64 {
        x as usize
    } else {
        usize::MAX
    }
}

/// The decoded node header at a byte offset.
pub open spec fn spec_decode_node_header(b: Seq<u8>, base: int) -> NodeHeader {
    NodeHeader {
        position: [spec_field32(b, base), spec_field32(b, base + 4), spec_field32(b, base + 8)],
        rotation: [
            spec_field32(b, base + 12),
            spec_field32(b, base + 16),
            spec_field32(b, base + 20),
            spec_field32(b, base + 24),
        ],
        scale: [
            spec_field32(b, base + 28),
            spec_field32(b, base + 32),
            spec_field32(b, base + 36),
        ],
        primitive_header_offset: spec_truncate_usize(spec_u64_of(b.subrange(base + 40, base + 48))),
        primitive_count: spec_truncate_usize(spec_u64_of(b.subrange(base + 48, base + 56))),
    }
}


/// The little-endian image of one node header.
pub open spec fn spec_node_header_bytes(h: NodeHeader) -> Seq<u8> {
    spec_u32_le(h.position[0]) + spec_u32_le(h.position[1]) + spec_u32_le(h.position[2])
        + spec_u32_le(h.rotation[0]) + spec_u32_le(h.rotation[1]) + spec_u32_le(h.rotation[2])
        + spec_u32_le(h.rotation[3]) + spec_u32_le(h.scale[0]) + spec_u32_le(h.scale[1])
        + spec_u32_le(h.scale[2]) + spec_u64_le(h.primitive_header_offset as u64) + spec_u64_le(
        h.primitive_count as u64,
    )
}

/// The little-endian image of one primitive header.
pub open spec fn spec_primitive_header_bytes(h: PrimitiveHeader) -> Seq<u8> {
    spec_u64_le(h.vertex_offset as u64) + spec_u64_le(h.vertex_count as u64) + spec_u64_le(
        h.index_offset as u64,
    ) + spec_u64_le(h.index_count as u64) + spec_u64_le(h.uv_header_offset as u64) + spec_u64_le(
        h.uv_set_count as u64,
    ) + spec_u64_le(h.material_index as u64)
}

/// The little-endian image of one texture-coordinate header.
pub open spec fn spec_texcoord_header_bytes(h: TexCoordHeader) -> Seq<u8> {
    spec_u64_le(h.offset as u64) + spec_u64_le(h.count as u64)
}

/// The little-endian image of one texture header.
pub open spec fn spec_texture_header_bytes(h: TextureHeader) -> Seq<u8> {
    spec_u64_le(h.offset as u64) + spec_u64_le(h.size as u64) + spec_u64_le(h.format.0 as u64)
        + spec_u32_le(h.width) + spec_u32_le(h.height)
}

/// The little-endian image of one optional texture slot: a presence word
/// and the three slot indices.
pub open spec fn spec_slot_bytes(s: Option<TextureSlot>) -> Seq<u8> {
    match s {
        Some(slot) => spec_u32_le(1) + spec_u32_le(slot.texture_index) + spec_u32_le(slot.uv_index)
            + spec_u32_le(slot.sampler_index),
        None => spec_u32_le(0) + spec_u32_le(0) + spec_u32_le(0) + spec_u32_le(0),
    }
}

/// The little-endian image of one material record.
pub open spec fn spec_material_bytes(m: MaterialRecord) -> Seq<u8> {
    spec_slot_bytes(m.base_color) + spec_slot_bytes(m.metallic_roughness) + spec_slot_bytes(
        m.normal,
    ) + spec_slot_bytes(m.occlusion) + spec_slot_bytes(m.emissive) + spec_u32_le(
        m.base_color_factor[0],
    ) + spec_u32_le(m.base_color_factor[1]) + spec_u32_le(m.base_color_factor[2]) + spec_u32_le(
        m.base_color_factor[3],
    ) + spec_u32_le(m.emissive_factor[0]) + spec_u32_le(m.emissive_factor[1]) + spec_u32_le(
        m.emissive_factor[2],
    ) + spec_u32_le(m.metallic_factor) + spec_u32_le(m.roughness_factor) + spec_u32_le(
        m.occlusion_strength,
    ) + spec_u32_le(m.normal_scale) + spec_u32_le(m.alpha_cutoff) + seq![
        m.alpha_mode,
        m.double_sided,
        0u8,
        0u8,
    ]
}

/// The image of one sampler record.
pub open spec fn spec_sampler_bytes(s: Sampler) -> Seq<u8> {
    seq![
        s.mag_filter,
        s.min_filter,
        s.mipmap_filter,
        s.address_mode_u,
        s.address_mode_v,
        0u8,
        0u8,
        0u8,
    ]
}

/// The concatenated images of a table of records.
pub open spec fn spec_table_bytes<A>(rs: Seq<A>, enc: spec_fn(A) -> Seq<u8>) -> Seq<u8>
    decreases rs.len(),
{
    if rs.len() == 0 {
        Seq::empty()
    } else {
        spec_table_bytes(rs.drop_last(), enc) + enc(rs.last())
    }
}

/// The concatenated images of an index table.
pub open spec fn spec_index_bytes(xs: Seq<u32>) -> Seq<u8>
    decreases xs.len(),
{
    if xs.len() == 0 {
        Seq::empty()
    } else {
        spec_index_bytes(xs.drop_last()) + spec_u32_le(xs.last())
    }
}

/// Encode one node header.
fn encode_node_header(h: &NodeHeader) -> (r: Vec<u8>)
    ensures
        r@ == spec_node_header_bytes(*h),
        r@.len() == NODE_HEADER_BYTES,
{
    let mut r: Vec<u8> = Vec::new();
    push_u32(&mut r, h.position[0]);
    push_u32(&mut r, h.position[1]);
    push_u32(&mut r, h.position[2]);
    push_u32(&mut r, h.rotation[0]);
    push_u32(&mut r, h.rotation[1]);
    push_u32(&mut r, h.rotation[2]);
    push_u32(&mut r, h.rotation[3]);
    push_u32(&mut r, h.scale[0]);
    push_u32(&mut r, h.scale[1]);
    push_u32(&mut r, h.scale[2]);
    push_u64(&mut r, h.primitive_header_offset as u64);
    push_u64(&mut r, h.primitive_count as u64);
    proof {
        assert(r@ =~= spec_node_header_bytes(*h));
    }
    r
}

/// Encode one primitive header.
fn encode_primitive_header(h: &PrimitiveHeader) -> (r: Vec<u8>)
    ensures
        r@ == spec_primitive_header_bytes(*h),
        r@.len() == PRIMITIVE_HEADER_BYTES,
{
    let mut r: Vec<u8> = Vec::new();
    push_u64(&mut r, h.vertex_offset as u64);
    push_u64(&mut r, h.vertex_count as u64);
    push_u64(&mut r, h.index_offset as u64);
    push_u64(&mut r, h.index_count as u64);
    push_u64(&mut r, h.uv_header_offset as u64);
    push_u64(&mut r, h.uv_set_count as u64);
    push_u64(&mut r, h.material_index as u64);
    proof {
        assert(r@ =~= spec_primitive_header_bytes(*h));
    }
    r
}

/// Encode one texture-coordinate header.
fn encode_texcoord_header(h: &TexCoordHeader) -> (r: Vec<u8>)
    ensures
        r@ == spec_texcoord_header_bytes(*h),
        r@.len() == TEXCOORD_HEADER_BYTES,
{
    let mut r: Vec<u8> = Vec::new();
    push_u64(&mut r, h.offset as u64);
    push_u64(&mut r, h.count as u64);
    proof {
        assert(r@ =~= spec_texcoord_header_bytes(*h));
    }
    r
}

/// Encode one texture header.
fn encode_texture_header(h: &TextureHeader) -> (r: Vec<u8>)
    ensures
        r@ == spec_texture_header_bytes(*h),
        r@.len() == TEXTURE_HEADER_BYTES,
{
    let mut r: Vec<u8> = Vec::new();
    push_u64(&mut r, h.offset as u64);
    push_u64(&mut r, h.size as u64);
    push_u64(&mut r, h.format.0 as u64);
    push_u32(&mut r, h.width);
    push_u32(&mut r, h.height);
    proof {
        assert(r@ =~= spec_texture_header_bytes(*h));
    }
    r
}

/// Encode one optional texture slot.
fn encode_slot(out: &mut Vec<u8>, s: &Option<TextureSlot>)
    requires
        old(out)@.len() + 16 <= usize::MAX,
    ensures
        final(out)@ == old(out)@ + spec_slot_bytes(*s),
{
    match s {
        Some(slot) => {
            push_u32(out, 1);
            push_u32(out, slot.texture_index);
            push_u32(out, slot.uv_index);
            push_u32(out, slot.sampler_index);
        }
        None => {
            push_u32(out, 0);
            push_u32(out, 0);
            push_u32(out, 0);
            push_u32(out, 0);
        }
    }
    proof {
        assert(final(out)@ =~= old(out)@ + spec_slot_bytes(*s));
    }
}

/// Encode one material record.
fn encode_material(m: &MaterialRecord) -> (r: Vec<u8>)
    ensures
        r@ == spec_material_bytes(*m),
        r@.len() == MATERIAL_BYTES,
{
    let mut r: Vec<u8> = Vec::new();
    encode_slot(&mut r, &m.base_color);
    encode_slot(&mut r, &m.metallic_roughness);
    encode_slot(&mut r, &m.normal);
    encode_slot(&mut r, &m.occlusion);
    encode_slot(&mut r, &m.emissive);
    push_u32(&mut r, m.base_color_factor[0]);
    push_u32(&mut r, m.base_color_factor[1]);
    push_u32(&mut r, m.base_color_factor[2]);
    push_u32(&mut r, m.base_color_factor[3]);
    push_u32(&mut r, m.emissive_factor[0]);
    push_u32(&mut r, m.emissive_factor[1]);
    push_u32(&mut r, m.emissive_factor[2]);
    push_u32(&mut r, m.metallic_factor);
    push_u32(&mut r, m.roughness_factor);
    push_u32(&mut r, m.occlusion_strength);
    push_u32(&mut r, m.normal_scale);
    push_u32(&mut r, m.alpha_cutoff);
    r.push(m.alpha_mode);
    r.push(m.double_sided);
    r.push(0);
    r.push(0);
    proof {
        assert(r@ =~= spec_material_bytes(*m));
    }
    r
}

/// Encode one sampler record.
fn encode_sampler(s: &Sampler) -> (r: Vec<u8>)
    ensures
        r@ == spec_sampler_bytes(*s),
        r@.len() == SAMPLER_BYTES,
{
    let mut r: Vec<u8> = Vec::new();
    r.push(s.mag_filter);
    r.push(s.min_filter);
    r.push(s.mipmap_filter);
    r.push(s.address_mode_u);
    r.push(s.address_mode_v);
    r.push(0);
    r.push(0);
    r.push(0);
    proof {
        assert(r@ =~= spec_sampler_bytes(*s));
    }
    r
}


/// The encoder spec of one node header, as a function value.
pub open spec fn node_header_enc() -> spec_fn(NodeHeader) -> Seq<u8> {
    |h: NodeHeader| spec_node_header_bytes(h)
}

/// The encoder spec of one primitive header, as a function value.
pub open spec fn primitive_header_enc() -> spec_fn(PrimitiveHeader) -> Seq<u8> {
    |h: PrimitiveHeader| spec_primitive_header_bytes(h)
}

/// The encoder spec of one texture-coordinate header, as a function value.
pub open spec fn texcoord_header_enc() -> spec_fn(TexCoordHeader) -> Seq<u8> {
    |h: TexCoordHeader| spec_texcoord_header_bytes(h)
}

/// The encoder spec of one texture header, as a function value.
pub open spec fn texture_header_enc() -> spec_fn(TextureHeader) -> Seq<u8> {
    |h: TextureHeader| spec_texture_header_bytes(h)
}

/// The encoder spec of one material record, as a function value.
pub open spec fn material_enc() -> spec_fn(MaterialRecord) -> Seq<u8> {
    |m: MaterialRecord| spec_material_bytes(m)
}

/// The encoder spec of one sampler record, as a function value.
pub open spec fn sampler_enc() -> spec_fn(Sampler) -> Seq<u8> {
    |s: Sampler| spec_sampler_bytes(s)
}

/// Encode the node header table.
fn encode_node_headers(hs: &Vec<NodeHeader>) -> (r: Vec<u8>)
    requires
        NODE_HEADER_BYTES * hs@.len() <= usize::MAX,
    ensures
        r@ == spec_table_bytes(hs@, node_header_enc()),
        r@.len() == NODE_HEADER_BYTES * hs@.len(),
{
    let mut r: Vec<u8> = Vec::new();
    let mut i: usize = 0;
    while i < hs.len()
        invariant
            i <= hs@.len(),
            NODE_HEADER_BYTES * hs@.len() <= usize::MAX,
            r@ == spec_table_bytes(hs@.take(i as int), node_header_enc()),
            r@.len() == NODE_HEADER_BYTES * i,
        decreases hs@.len() - i,
    {
        let e = encode_node_header(&hs[i]);
        let mut j: usize = 0;
        while j < e.len()
            invariant
                j <= e@.len(),
                e@.len() == NODE_HEADER_BYTES,
                r@.len() <= usize::MAX - NODE_HEADER_BYTES + j,
                r@ == spec_table_bytes(hs@.take(i as int), node_header_enc()) + e@.subrange(
                    0,
                    j as int,
                ),
            decreases e@.len() - j,
        {
            r.push(e[j]);
            proof {
                assert(r@ =~= spec_table_bytes(hs@.take(i as int), node_header_enc())
                    + e@.subrange(0, j + 1));
            }
            j = j + 1;
        }
        proof {
            assert(e@.subrange(0, e@.len() as int) =~= e@);
            assert(hs@.take(i + 1).drop_last() =~= hs@.take(i as int));
            assert(hs@.take(i + 1).last() == hs@[i as int]);
            assert(node_header_enc()(hs@[i as int]) == spec_node_header_bytes(hs@[i as int]));
            assert(r@ =~= spec_table_bytes(hs@.take(i + 1), node_header_enc()));
        }
        i = i + 1;
    }
    proof {
        assert(hs@.take(hs@.len() as int) =~= hs@);
    }
    r
}


/// Encode the primitive header table.
fn encode_primitive_headers(hs: &Vec<PrimitiveHeader>) -> (r: Vec<u8>)
    requires
        PRIMITIVE_HEADER_BYTES * hs@.len() <= usize::MAX,
    ensures
        r@ == spec_table_bytes(hs@, primitive_header_enc()),
        r@.len() == PRIMITIVE_HEADER_BYTES * hs@.len(),
{
    let mut r: Vec<u8> = Vec::new();
    let mut i: usize = 0;
    while i < hs.len()
        invariant
            i <= hs@.len(),
            PRIMITIVE_HEADER_BYTES * hs@.len() <= usize::MAX,
            r@ == spec_table_bytes(hs@.take(i as int), primitive_header_enc()),
            r@.len() == PRIMITIVE_HEADER_BYTES * i,
        decreases hs@.len() - i,
    {
        let e = encode_primitive_header(&hs[i]);
        let mut j: usize = 0;
        while j < e.len()
            invariant
                j <= e@.len(),
                e@.len() == PRIMITIVE_HEADER_BYTES,
                r@.len() <= usize::MAX - PRIMITIVE_HEADER_BYTES + j,
                r@ == spec_table_bytes(hs@.take(i as int), primitive_header_enc()) + e@.subrange(0, j as int),
            decreases e@.len() - j,
        {
            r.push(e[j]);
            proof {
                assert(r@ =~= spec_table_bytes(hs@.take(i as int), primitive_header_enc()) + e@.subrange(
                    0,
                    j + 1,
                ));
            }
            j = j + 1;
        }
        proof {
            assert(e@.subrange(0, e@.len() as int) =~= e@);
            assert(hs@.take(i + 1).drop_last() =~= hs@.take(i as int));
            assert(hs@.take(i + 1).last() == hs@[i as int]);
            assert(primitive_header_enc()(hs@[i as int]) == spec_primitive_header_bytes(hs@[i as int]));
            assert(r@ =~= spec_table_bytes(hs@.take(i + 1), primitive_header_enc()));
        }
        i = i + 1;
    }
    proof {
        assert(hs@.take(hs@.len() as int) =~= hs@);
    }
    r
}

/// Encode the texture-coordinate header table.
fn encode_texcoord_headers(hs: &Vec<TexCoordHeader>) -> (r: Vec<u8>)
    requires
        TEXCOORD_HEADER_BYTES * hs@.len() <= usize::MAX,
    ensures
        r@ == spec_table_bytes(hs@, texcoord_header_enc()),
        r@.len() == TEXCOORD_HEADER_BYTES * hs@.len(),
{
    let mut r: Vec<u8> = Vec::new();
    let mut i: usize = 0;
    while i < hs.len()
        invariant
            i <= hs@.len(),
            TEXCOORD_HEADER_BYTES * hs@.len() <= usize::MAX,
            r@ == spec_table_bytes(hs@.take(i as int), texcoord_header_enc()),
            r@.len() == TEXCOORD_HEADER_BYTES * i,
        decreases hs@.len() - i,
    {
        let e = encode_texcoord_header(&hs[i]);
        let mut j: usize = 0;
        while j < e.len()
            invariant
                j <= e@.len(),
                e@.len() == TEXCOORD_HEADER_BYTES,
                r@.len() <= usize::MAX - TEXCOORD_HEADER_BYTES + j,
                r@ == spec_table_bytes(hs@.take(i as int), texcoord_header_enc()) + e@.subrange(0, j as int),
            decreases e@.len() - j,
        {
            r.push(e[j]);
            proof {
                assert(r@ =~= spec_table_bytes(hs@.take(i as int), texcoord_header_enc()) + e@.subrange(
                    0,
                    j + 1,
                ));
            }
            j = j + 1;
        }
        proof {
            assert(e@.subrange(0, e@.len() as int) =~= e@);
            assert(hs@.take(i + 1).drop_last() =~= hs@.take(i as int));
            assert(hs@.take(i + 1).last() == hs@[i as int]);
            assert(texcoord_header_enc()(hs@[i as int]) == spec_texcoord_header_bytes(hs@[i as int]));
            assert(r@ =~= spec_table_bytes(hs@.take(i + 1), texcoord_header_enc()));
        }
        i = i + 1;
    }
    proof {
        assert(hs@.take(hs@.len() as int) =~= hs@);
    }
    r
}

/// Encode the texture header table.
fn encode_texture_headers(hs: &Vec<TextureHeader>) -> (r: Vec<u8>)
    requires
        TEXTURE_HEADER_BYTES * hs@.len() <= usize::MAX,
    ensures
        r@ == spec_table_bytes(hs@, texture_header_enc()),
        r@.len() == TEXTURE_HEADER_BYTES * hs@.len(),
{
    let mut r: Vec<u8> = Vec::new();
    let mut i: usize = 0;
    while i < hs.len()
        invariant
            i <= hs@.len(),
            TEXTURE_HEADER_BYTES * hs@.len() <= usize::MAX,
            r@ == spec_table_bytes(hs@.take(i as int), texture_header_enc()),
            r@.len() == TEXTURE_HEADER_BYTES * i,
        decreases hs@.len() - i,
    {
        let e = encode_texture_header(&hs[i]);
        let mut j: usize = 0;
        while j < e.len()
            invariant
                j <= e@.len(),
                e@.len() == TEXTURE_HEADER_BYTES,
                r@.len() <= usize::MAX - TEXTURE_HEADER_BYTES + j,
                r@ == spec_table_bytes(hs@.take(i as int), texture_header_enc()) + e@.subrange(0, j as int),
            decreases e@.len() - j,
        {
            r.push(e[j]);
            proof {
                assert(r@ =~= spec_table_bytes(hs@.take(i as int), texture_header_enc()) + e@.subrange(
                    0,
                    j + 1,
                ));
            }
            j = j + 1;
        }
        proof {
            assert(e@.subrange(0, e@.len() as int) =~= e@);
            assert(hs@.take(i + 1).drop_last() =~= hs@.take(i as int));
            assert(hs@.take(i + 1).last() == hs@[i as int]);
            assert(texture_header_enc()(hs@[i as int]) == spec_texture_header_bytes(hs@[i as int]));
            assert(r@ =~= spec_table_bytes(hs@.take(i + 1), texture_header_enc()));
        }
        i = i + 1;
    }
    proof {
        assert(hs@.take(hs@.len() as int) =~= hs@);
    }
    r
}

/// Encode the material record table.
fn encode_material_records(hs: &Vec<MaterialRecord>) -> (r: Vec<u8>)
    requires
        MATERIAL_BYTES * hs@.len() <= usize::MAX,
    ensures
        r@ == spec_table_bytes(hs@, material_enc()),
        r@.len() == MATERIAL_BYTES * hs@.len(),
{
    let mut r: Vec<u8> = Vec::new();
    let mut i: usize = 0;
    while i < hs.len()
        invariant
            i <= hs@.len(),
            MATERIAL_BYTES * hs@.len() <= usize::MAX,
            r@ == spec_table_bytes(hs@.take(i as int), material_enc()),
            r@.len() == MATERIAL_BYTES * i,
        decreases hs@.len() - i,
    {
        let e = encode_material(&hs[i]);
        let mut j: usize = 0;
        while j < e.len()
            invariant
                j <= e@.len(),
                e@.len() == MATERIAL_BYTES,
                r@.len() <= usize::MAX - MATERIAL_BYTES + j,
                r@ == spec_table_bytes(hs@.take(i as int), material_enc()) + e@.subrange(0, j as int),
            decreases e@.len() - j,
        {
            r.push(e[j]);
            proof {
                assert(r@ =~= spec_table_bytes(hs@.take(i as int), material_enc()) + e@.subrange(
                    0,
                    j + 1,
                ));
            }
            j = j + 1;
        }
        proof {
            assert(e@.subrange(0, e@.len() as int) =~= e@);
            assert(hs@.take(i + 1).drop_last() =~= hs@.take(i as int));
            assert(hs@.take(i + 1).last() == hs@[i as int]);
            assert(material_enc()(hs@[i as int]) == spec_material_bytes(hs@[i as int]));
            assert(r@ =~= spec_table_bytes(hs@.take(i + 1), material_enc()));
        }
        i = i + 1;
    }
    proof {
        assert(hs@.take(hs@.len() as int) =~= hs@);
    }
    r
}

/// Encode the sampler record table.
fn encode_sampler_records(hs: &Vec<Sampler>) -> (r: Vec<u8>)
    requires
        SAMPLER_BYTES * hs@.len() <= usize::MAX,
    ensures
        r@ == spec_table_bytes(hs@, sampler_enc()),
        r@.len() == SAMPLER_BYTES * hs@.len(),
{
    let mut r: Vec<u8> = Vec::new();
    let mut i: usize = 0;
    while i < hs.len()
        invariant
            i <= hs@.len(),
            SAMPLER_BYTES * hs@.len() <= usize::MAX,
            r@ == spec_table_bytes(hs@.take(i as int), sampler_enc()),
            r@.len() == SAMPLER_BYTES * i,
        decreases hs@.len() - i,
    {
        let e = encode_sampler(&hs[i]);
        let mut j: usize = 0;
        while j < e.len()
            invariant
                j <= e@.len(),
                e@.len() == SAMPLER_BYTES,
                r@.len() <= usize::MAX - SAMPLER_BYTES + j,
                r@ == spec_table_bytes(hs@.take(i as int), sampler_enc()) + e@.subrange(0, j as int),
            decreases e@.len() - j,
        {
            r.push(e[j]);
            proof {
                assert(r@ =~= spec_table_bytes(hs@.take(i as int), sampler_enc()) + e@.subrange(
                    0,
                    j + 1,
                ));
            }
            j = j + 1;
        }
        proof {
            assert(e@.subrange(0, e@.len() as int) =~= e@);
            assert(hs@.take(i + 1).drop_last() =~= hs@.take(i as int));
            assert(hs@.take(i + 1).last() == hs@[i as int]);
            assert(sampler_enc()(hs@[i as int]) == spec_sampler_bytes(hs@[i as int]));
            assert(r@ =~= spec_table_bytes(hs@.take(i + 1), sampler_enc()));
        }
        i = i + 1;
    }
    proof {
        assert(hs@.take(hs@.len() as int) =~= hs@);
    }
    r
}

/// Encode the index table.
fn encode_indices(xs: &Vec<u32>) -> (r: Vec<u8>)
    requires
        4 * xs@.len() <= usize::MAX,
    ensures
        r@ == spec_index_bytes(xs@),
        r@.len() == 4 * xs@.len(),
{
    let mut r: Vec<u8> = Vec::new();
    let mut i: usize = 0;
    while i < xs.len()
        invariant
            i <= xs@.len(),
            4 * xs@.len() <= usize::MAX,
            r@ == spec_index_bytes(xs@.take(i as int)),
            r@.len() == 4 * i,
        decreases xs@.len() - i,
    {
        push_u32(&mut r, xs[i]);
        proof {
            assert(xs@.take(i + 1).drop_last() =~= xs@.take(i as int));
            assert(xs@.take(i + 1).last() == xs@[i as int]);
            assert(r@ =~= spec_index_bytes(xs@.take(i + 1)));
        }
        i = i + 1;
    }
    proof {
        assert(xs@.take(xs@.len() as int) =~= xs@);
    }
    r
}


/// An appended or patched buffer keeps every byte range that lay inside its
/// preserved prefix.
proof fn lemma_range_kept(older: Seq<u8>, newer: Seq<u8>, o: int, l: int)
    requires
        0 <= o,
        0 <= l,
        o + l <= older.len(),
        older.len() <= newer.len(),
        newer.subrange(0, older.len() as int) == older,
    ensures
        newer.subrange(o, o + l) == older.subrange(o, o + l),
{
    assert forall|t: int| 0 <= t < l implies #[trigger] newer.subrange(o, o + l)[t]
        == older.subrange(o, o + l)[t] by {
        assert(newer.subrange(0, older.len() as int)[o + t] == older[o + t]);
    }
    assert(newer.subrange(o, o + l) =~= older.subrange(o, o + l));
}

/// Whether a buffer holds each listed byte sequence at its listed offset.
pub open spec fn ranges_hold(b: Seq<u8>, rs: Seq<(int, Seq<u8>)>) -> bool {
    forall|j: int| 0 <= j < rs.len() ==> 0 <= #[trigger] rs[j].0 && rs[j].0 + rs[j].1.len()
        <= b.len() && b.subrange(rs[j].0, rs[j].0 + rs[j].1.len()) == rs[j].1
}

/// Extending a buffer keeps every range it already held.
proof fn lemma_ranges_kept(older: Seq<u8>, newer: Seq<u8>, rs: Seq<(int, Seq<u8>)>)
    requires
        ranges_hold(older, rs),
        older.len() <= newer.len(),
        newer.subrange(0, older.len() as int) == older,
    ensures
        ranges_hold(newer, rs),
{
    assert forall|j: int| 0 <= j < rs.len() implies 0 <= #[trigger] rs[j].0 && rs[j].0
        + rs[j].1.len() <= newer.len() && newer.subrange(rs[j].0, rs[j].0 + rs[j].1.len())
        == rs[j].1 by {
        lemma_range_kept(older, newer, rs[j].0, rs[j].1.len() as int);
    }
}

/// Patching the reserved header keeps every range that starts past it.
proof fn lemma_ranges_kept_patch(older: Seq<u8>, newer: Seq<u8>, rs: Seq<(int, Seq<u8>)>)
    requires
        ranges_hold(older, rs),
        newer.len() == older.len(),
        forall|j: int| 0 <= j < rs.len() ==> #[trigger] rs[j].0 >= SCENE_HEADER_BYTES,
        forall|i: int| SCENE_HEADER_BYTES <= i < older.len() ==> #[trigger] newer[i] == older[i],
    ensures
        ranges_hold(newer, rs),
{
    assert forall|j: int| 0 <= j < rs.len() implies 0 <= #[trigger] rs[j].0 && rs[j].0
        + rs[j].1.len() <= newer.len() && newer.subrange(rs[j].0, rs[j].0 + rs[j].1.len())
        == rs[j].1 by {
        let o = rs[j].0;
        let l = rs[j].1.len() as int;
        assert forall|t: int| 0 <= t < l implies #[trigger] newer.subrange(o, o + l)[t]
            == older.subrange(o, o + l)[t] by {
            assert(newer[o + t] == older[o + t]);
        }
        assert(newer.subrange(o, o + l) =~= older.subrange(o, o + l));
    }
}

/// Where each table and payload of a packed scene buffer lies, given the
/// header and the inputs.
pub open spec fn scene_regions_at(
    h: SceneHeader,
    node_headers: Seq<NodeHeader>,
    primitive_headers: Seq<PrimitiveHeader>,
    uv_headers: Seq<TexCoordHeader>,
    texture_headers: Seq<TextureHeader>,
    materials: Seq<MaterialRecord>,
    samplers: Seq<Sampler>,
    vertices: Seq<u8>,
    indices: Seq<u32>,
    uv_sets: Seq<u8>,
    textures: Seq<u8>,
) -> Seq<(int, Seq<u8>)> {
    seq![
        (h.node_header_offset as int, spec_table_bytes(node_headers, node_header_enc())),
        (
            h.primitive_header_offset as int,
            spec_table_bytes(primitive_headers, primitive_header_enc()),
        ),
        (h.uv_header_offset as int, spec_table_bytes(uv_headers, texcoord_header_enc())),
        (h.texture_header_offset as int, spec_table_bytes(texture_headers, texture_header_enc())),
        (h.materials_offset as int, spec_table_bytes(materials, material_enc())),
        (h.samplers_offset as int, spec_table_bytes(samplers, sampler_enc())),
        (h.vertices_offset as int, vertices),
        (h.indices_offset as int, spec_index_bytes(indices)),
        (h.uv_sets_offset as int, uv_sets),
        (h.texture_offset as int, textures),
    ]
}

/// The header counts match the inputs.
pub open spec fn scene_counts_match(
    h: SceneHeader,
    node_headers: Seq<NodeHeader>,
    primitive_headers: Seq<PrimitiveHeader>,
    uv_headers: Seq<TexCoordHeader>,
    texture_headers: Seq<TextureHeader>,
    materials: Seq<MaterialRecord>,
    samplers: Seq<Sampler>,
    vertices: Seq<u8>,
    indices: Seq<u32>,
    uv_sets: Seq<u8>,
    textures: Seq<u8>,
) -> bool {
    &&& h.node_header_count == node_headers.len()
    &&& h.primitive_header_count == primitive_headers.len()
    &&& h.uv_header_count == uv_headers.len()
    &&& h.texture_header_count == texture_headers.len()
    &&& h.materials_count == materials.len()
    &&& h.samplers_count == samplers.len()
    &&& h.vertices_count == vertices.len() as int / VERTEX_BYTES as int
    &&& h.indices_count == indices.len()
    &&& h.uv_sets_count == uv_sets.len() as int / TEXCOORD_BYTES as int
    &&& h.texture_size == textures.len()
}

impl SceneBuffer {
    /// Pack every table and payload at an aligned offset after the space
    /// reserved for the header, and compute the header that locates them.
    #[verifier::rlimit(100)]
    fn pack_tables(
        node_headers: &Vec<NodeHeader>,
        primitive_headers: &Vec<PrimitiveHeader>,
        uv_headers: &Vec<TexCoordHeader>,
        texture_headers: &Vec<TextureHeader>,
        materials: &Vec<MaterialRecord>,
        samplers: &Vec<Sampler>,
        vertices: &Vec<u8>,
        indices: &Vec<u32>,
        uv_sets: &Vec<u8>,
        textures: &Vec<u8>,
    ) -> (r: (BlobBuilder, SceneHeader))
        requires
            vertices@.len() as int % VERTEX_BYTES as int == 0,
            uv_sets@.len() as int % TEXCOORD_BYTES as int == 0,
            SCENE_HEADER_BYTES + 96 + NODE_HEADER_BYTES * node_headers@.len()
                + PRIMITIVE_HEADER_BYTES * primitive_headers@.len() + TEXCOORD_HEADER_BYTES
                * uv_headers@.len() + TEXTURE_HEADER_BYTES * texture_headers@.len()
                + MATERIAL_BYTES * materials@.len() + SAMPLER_BYTES * samplers@.len()
                + vertices@.len() + 4 * indices@.len() + uv_sets@.len() + textures@.len()
                <= usize::MAX,
        ensures
            scene_counts_match(
                r.1,
                node_headers@,
                primitive_headers@,
                uv_headers@,
                texture_headers@,
                materials@,
                samplers@,
                vertices@,
                indices@,
                uv_sets@,
                textures@,
            ),
            ranges_hold(
                r.0@,
                scene_regions_at(
                    r.1,
                    node_headers@,
                    primitive_headers@,
                    uv_headers@,
                    texture_headers@,
                    materials@,
                    samplers@,
                    vertices@,
                    indices@,
                    uv_sets@,
                    textures@,
                ),
            ),
            r.1.node_header_offset >= SCENE_HEADER_BYTES,
            r.1.primitive_header_offset >= SCENE_HEADER_BYTES,
            r.1.uv_header_offset >= SCENE_HEADER_BYTES,
            r.1.texture_header_offset >= SCENE_HEADER_BYTES,
            r.1.materials_offset >= SCENE_HEADER_BYTES,
            r.1.samplers_offset >= SCENE_HEADER_BYTES,
            r.1.vertices_offset >= SCENE_HEADER_BYTES,
            r.1.indices_offset >= SCENE_HEADER_BYTES,
            r.1.uv_sets_offset >= SCENE_HEADER_BYTES,
            r.1.texture_offset >= SCENE_HEADER_BYTES,
            r.0@.len() >= SCENE_HEADER_BYTES,
    {
        let node_bytes = encode_node_headers(node_headers);
        let primitive_bytes = encode_primitive_headers(primitive_headers);
        let uv_header_bytes = encode_texcoord_headers(uv_headers);
        let texture_header_bytes = encode_texture_headers(texture_headers);
        let material_bytes = encode_material_records(materials);
        let sampler_bytes = encode_sampler_records(samplers);
        let index_bytes = encode_indices(indices);

        let mut builder = BlobBuilder::new();
        let header_offset = builder.reserve(SCENE_HEADER_BYTES, 8);
        let ghost mut rs: Seq<(int, Seq<u8>)> = Seq::empty();

        let ghost g0 = builder@;
        let node_header_offset = builder.push_bytes_aligned(&node_bytes, 8);
        proof {
            lemma_align_up(g0.len(), 8);
            lemma_ranges_kept(g0, builder@, rs);
            rs = rs.push((node_header_offset as int, node_bytes@));
            assert(ranges_hold(builder@, rs));
        }
        let ghost g1 = builder@;
        let primitive_header_offset = builder.push_bytes_aligned(&primitive_bytes, 8);
        proof {
            lemma_align_up(g1.len(), 8);
            lemma_ranges_kept(g1, builder@, rs);
            rs = rs.push((primitive_header_offset as int, primitive_bytes@));
            assert(ranges_hold(builder@, rs));
        }
        let ghost g2 = builder@;
        let uv_header_offset = builder.push_bytes_aligned(&uv_header_bytes, 8);
        proof {
            lemma_align_up(g2.len(), 8);
            lemma_ranges_kept(g2, builder@, rs);
            rs = rs.push((uv_header_offset as int, uv_header_bytes@));
            assert(ranges_hold(builder@, rs));
        }
        let ghost g3 = builder@;
        let texture_header_offset = builder.push_bytes_aligned(&texture_header_bytes, 8);
        proof {
            lemma_align_up(g3.len(), 8);
            lemma_ranges_kept(g3, builder@, rs);
            rs = rs.push((texture_header_offset as int, texture_header_bytes@));
            assert(ranges_hold(builder@, rs));
        }
        let ghost g4 = builder@;
        let materials_offset = builder.push_bytes_aligned(&material_bytes, 8);
        proof {
            lemma_align_up(g4.len(), 8);
            lemma_ranges_kept(g4, builder@, rs);
            rs = rs.push((materials_offset as int, material_bytes@));
            assert(ranges_hold(builder@, rs));
        }
        let ghost g5 = builder@;
        let samplers_offset = builder.push_bytes_aligned(&sampler_bytes, 8);
        proof {
            lemma_align_up(g5.len(), 8);
            lemma_ranges_kept(g5, builder@, rs);
            rs = rs.push((samplers_offset as int, sampler_bytes@));
            assert(ranges_hold(builder@, rs));
        }
        let ghost g6 = builder@;
        let vertices_offset = builder.push_bytes_aligned(vertices, 8);
        proof {
            lemma_align_up(g6.len(), 8);
            lemma_ranges_kept(g6, builder@, rs);
            rs = rs.push((vertices_offset as int, vertices@));
            assert(ranges_hold(builder@, rs));
        }
        let ghost g7 = builder@;
        let indices_offset = builder.push_bytes_aligned(&index_bytes, 8);
        proof {
            lemma_align_up(g7.len(), 8);
            lemma_ranges_kept(g7, builder@, rs);
            rs = rs.push((indices_offset as int, index_bytes@));
            assert(ranges_hold(builder@, rs));
        }
        let ghost g8 = builder@;
        let uv_sets_offset = builder.push_bytes_aligned(uv_sets, 8);
        proof {
            lemma_align_up(g8.len(), 8);
            lemma_ranges_kept(g8, builder@, rs);
            rs = rs.push((uv_sets_offset as int, uv_sets@));
            assert(ranges_hold(builder@, rs));
        }
        let ghost g9 = builder@;
        let texture_offset = builder.push_bytes_aligned(textures, 8);
        proof {
            lemma_align_up(g9.len(), 8);
            lemma_ranges_kept(g9, builder@, rs);
            rs = rs.push((texture_offset as int, textures@));
            assert(ranges_hold(builder@, rs));
        }

        let header = SceneHeader {
            node_header_offset,
            node_header_count: node_headers.len(),
            primitive_header_offset,
            primitive_header_count: primitive_headers.len(),
            uv_header_offset,
            uv_header_count: uv_headers.len(),
            texture_header_offset,
            texture_header_count: texture_headers.len(),
            materials_offset,
            materials_count: materials.len(),
            samplers_offset,
            samplers_count: samplers.len(),
            vertices_offset,
            vertices_count: vertices.len() / VERTEX_BYTES,
            indices_offset,
            indices_count: indices.len(),
            uv_sets_offset,
            uv_sets_count: uv_sets.len() / TEXCOORD_BYTES,
            texture_offset,
            texture_size: textures.len(),
        };
        proof {
            assert(rs[0] == (node_header_offset as int, node_bytes@));
            assert(rs[1] == (primitive_header_offset as int, primitive_bytes@));
            assert(rs[2] == (uv_header_offset as int, uv_header_bytes@));
            assert(rs[3] == (texture_header_offset as int, texture_header_bytes@));
            assert(rs[4] == (materials_offset as int, material_bytes@));
            assert(rs[5] == (samplers_offset as int, sampler_bytes@));
            assert(rs[6] == (vertices_offset as int, vertices@));
            assert(rs[7] == (indices_offset as int, index_bytes@));
            assert(rs[8] == (uv_sets_offset as int, uv_sets@));
            assert(rs[9] == (texture_offset as int, textures@));
            assert(rs =~= scene_regions_at(
                header,
                node_headers@,
                primitive_headers@,
                uv_headers@,
                texture_headers@,
                materials@,
                samplers@,
                vertices@,
                indices@,
                uv_sets@,
                textures@,
            ));
        }
        (builder, header)
    }

    /// Pack a scene into one contiguous buffer: the header at offset 0,
    /// then each table and payload at an aligned offset the header records,
    /// together with its element count.
    #[verifier::rlimit(100)]
    pub fn new(
        node_headers: &Vec<NodeHeader>,
        primitive_headers: &Vec<PrimitiveHeader>,
        uv_headers: &Vec<TexCoordHeader>,
        texture_headers: &Vec<TextureHeader>,
        materials: &Vec<MaterialRecord>,
        samplers: &Vec<Sampler>,
        vertices: &Vec<u8>,
        indices: &Vec<u32>,
        uv_sets: &Vec<u8>,
        textures: &Vec<u8>,
    ) -> (r: Self)
        requires
            vertices@.len() as int % VERTEX_BYTES as int == 0,
            uv_sets@.len() as int % TEXCOORD_BYTES as int == 0,
            SCENE_HEADER_BYTES + 96 + NODE_HEADER_BYTES * node_headers@.len()
                + PRIMITIVE_HEADER_BYTES * primitive_headers@.len() + TEXCOORD_HEADER_BYTES
                * uv_headers@.len() + TEXTURE_HEADER_BYTES * texture_headers@.len()
                + MATERIAL_BYTES * materials@.len() + SAMPLER_BYTES * samplers@.len()
                + vertices@.len() + 4 * indices@.len() + uv_sets@.len() + textures@.len()
                <= usize::MAX,
        ensures
            spec_decode_scene_header(r@) matches Some(h) && scene_counts_match(
                h,
                node_headers@,
                primitive_headers@,
                uv_headers@,
                texture_headers@,
                materials@,
                samplers@,
                vertices@,
                indices@,
                uv_sets@,
                textures@,
            ) && ranges_hold(
                r@,
                scene_regions_at(
                    h,
                    node_headers@,
                    primitive_headers@,
                    uv_headers@,
                    texture_headers@,
                    materials@,
                    samplers@,
                    vertices@,
                    indices@,
                    uv_sets@,
                    textures@,
                ),
            ),
    {
        let packed = Self::pack_tables(
            node_headers,
            primitive_headers,
            uv_headers,
            texture_headers,
            materials,
            samplers,
            vertices,
            indices,
            uv_sets,
            textures,
        );
        let mut builder = packed.0;
        let header = packed.1;
        let ghost rs = scene_regions_at(
            header,
            node_headers@,
            primitive_headers@,
            uv_headers@,
            texture_headers@,
            materials@,
            samplers@,
            vertices@,
            indices@,
            uv_sets@,
            textures@,
        );
        let header_bytes = encode_scene_header(&header);
        let ghost g10 = builder@;
        builder.write_at(0, &header_bytes);
        let ghost g11 = builder@;
        let buffer = builder.finish();
        let r = SceneBuffer(buffer);
        proof {
            let fb = r@;
            assert forall|j: int| 0 <= j < rs.len() implies #[trigger] rs[j].0
                >= SCENE_HEADER_BYTES by {}
            lemma_ranges_kept_patch(g10, g11, rs);
            assert(fb == g11);
            assert(fb.subrange(0, SCENE_HEADER_BYTES as int) == header_bytes@);
            lemma_patched_header_decodes(fb, header);
        }
        r
    }
}

/// A buffer whose first bytes hold an encoded header decodes to it.
#[verifier::rlimit(100)]
proof fn lemma_patched_header_decodes(fb: Seq<u8>, header: SceneHeader)
    requires
        fb.len() >= SCENE_HEADER_BYTES,
        fb.subrange(0, SCENE_HEADER_BYTES as int) == spec_scene_header_bytes(header),
    ensures
        spec_decode_scene_header(fb) == Some(header),
{
    assert forall|i: int| 0 <= i < 20 implies #[trigger] spec_field64(fb, 0, i) == spec_u64_of(
        spec_scene_header_bytes(header).subrange(8 * i, 8 * i + 8),
    ) by {
        assert(fb.subrange(8 * i, 8 * i + 8) =~= fb.subrange(
            0,
            SCENE_HEADER_BYTES as int,
        ).subrange(8 * i, 8 * i + 8));
    }
    lemma_scene_header_fields(header);
    assert(spec_decode_scene_header(fb) == Some(header));
}

/// Each field of an encoded scene header decodes back to its value.
#[verifier::rlimit(100)]
proof fn lemma_scene_header_fields(h: SceneHeader)
    ensures
        ({
            let b = spec_scene_header_bytes(h);
            &&& b.len() == SCENE_HEADER_BYTES
            &&& spec_u64_of(b.subrange(0, 8)) == h.node_header_offset as u64
            &&& spec_u64_of(b.subrange(8, 16)) == h.node_header_count as u64
            &&& spec_u64_of(b.subrange(16, 24)) == h.primitive_header_offset as u64
            &&& spec_u64_of(b.subrange(24, 32)) == h.primitive_header_count as u64
            &&& spec_u64_of(b.subrange(32, 40)) == h.uv_header_offset as u64
            &&& spec_u64_of(b.subrange(40, 48)) == h.uv_header_count as u64
            &&& spec_u64_of(b.subrange(48, 56)) == h.texture_header_offset as u64
            &&& spec_u64_of(b.subrange(56, 64)) == h.texture_header_count as u64
            &&& spec_u64_of(b.subrange(64, 72)) == h.materials_offset as u64
            &&& spec_u64_of(b.subrange(72, 80)) == h.materials_count as u64
            &&& spec_u64_of(b.subrange(80, 88)) == h.samplers_offset as u64
            &&& spec_u64_of(b.subrange(88, 96)) == h.samplers_count as u64
            &&& spec_u64_of(b.subrange(96, 104)) == h.vertices_offset as u64
            &&& spec_u64_of(b.subrange(104, 112)) == h.vertices_count as u64
            &&& spec_u64_of(b.subrange(112, 120)) == h.indices_offset as u64
            &&& spec_u64_of(b.subrange(120, 128)) == h.indices_count as u64
            &&& spec_u64_of(b.subrange(128, 136)) == h.uv_sets_offset as u64
            &&& spec_u64_of(b.subrange(136, 144)) == h.uv_sets_count as u64
            &&& spec_u64_of(b.subrange(144, 152)) == h.texture_offset as u64
            &&& spec_u64_of(b.subrange(152, 160)) == h.texture_size as u64
        }),
{
    let b = spec_scene_header_bytes(h);
    crate::bytes::lemma_u64_roundtrip(h.node_header_offset as u64);
    crate::bytes::lemma_u64_roundtrip(h.node_header_count as u64);
    crate::bytes::lemma_u64_roundtrip(h.primitive_header_offset as u64);
    crate::bytes::lemma_u64_roundtrip(h.primitive_header_count as u64);
    crate::bytes::lemma_u64_roundtrip(h.uv_header_offset as u64);
    crate::bytes::lemma_u64_roundtrip(h.uv_header_count as u64);
    crate::bytes::lemma_u64_roundtrip(h.texture_header_offset as u64);
    crate::bytes::lemma_u64_roundtrip(h.texture_header_count as u64);
    crate::bytes::lemma_u64_roundtrip(h.materials_offset as u64);
    crate::bytes::lemma_u64_roundtrip(h.materials_count as u64);
    crate::bytes::lemma_u64_roundtrip(h.samplers_offset as u64);
    crate::bytes::lemma_u64_roundtrip(h.samplers_count as u64);
    crate::bytes::lemma_u64_roundtrip(h.vertices_offset as u64);
    crate::bytes::lemma_u64_roundtrip(h.vertices_count as u64);
    crate::bytes::lemma_u64_roundtrip(h.indices_offset as u64);
    crate::bytes::lemma_u64_roundtrip(h.indices_count as u64);
    crate::bytes::lemma_u64_roundtrip(h.uv_sets_offset as u64);
    crate::bytes::lemma_u64_roundtrip(h.uv_sets_count as u64);
    crate::bytes::lemma_u64_roundtrip(h.texture_offset as u64);
    crate::bytes::lemma_u64_roundtrip(h.texture_size as u64);
    assert(b.subrange(0, 8) =~= spec_u64_le(h.node_header_offset as u64));
    assert(b.subrange(8, 16) =~= spec_u64_le(h.node_header_count as u64));
    assert(b.subrange(16, 24) =~= spec_u64_le(h.primitive_header_offset as u64));
    assert(b.subrange(24, 32) =~= spec_u64_le(h.primitive_header_count as u64));
    assert(b.subrange(32, 40) =~= spec_u64_le(h.uv_header_offset as u64));
    assert(b.subrange(40, 48) =~= spec_u64_le(h.uv_header_count as u64));
    assert(b.subrange(48, 56) =~= spec_u64_le(h.texture_header_offset as u64));
    assert(b.subrange(56, 64) =~= spec_u64_le(h.texture_header_count as u64));
    assert(b.subrange(64, 72) =~= spec_u64_le(h.materials_offset as u64));
    assert(b.subrange(72, 80) =~= spec_u64_le(h.materials_count as u64));
    assert(b.subrange(80, 88) =~= spec_u64_le(h.samplers_offset as u64));
    assert(b.subrange(88, 96) =~= spec_u64_le(h.samplers_count as u64));
    assert(b.subrange(96, 104) =~= spec_u64_le(h.vertices_offset as u64));
    assert(b.subrange(104, 112) =~= spec_u64_le(h.vertices_count as u64));
    assert(b.subrange(112, 120) =~= spec_u64_le(h.indices_offset as u64));
    assert(b.subrange(120, 128) =~= spec_u64_le(h.indices_count as u64));
    assert(b.subrange(128, 136) =~= spec_u64_le(h.uv_sets_offset as u64));
    assert(b.subrange(136, 144) =~= spec_u64_le(h.uv_sets_count as u64));
    assert(b.subrange(144, 152) =~= spec_u64_le(h.texture_offset as u64));
    assert(b.subrange(152, 160) =~= spec_u64_le(h.texture_size as u64));
}



/// The decoded texture-coordinate header at a byte offset.
pub open spec fn spec_decode_texcoord_header(b: Seq<u8>, base: int) -> TexCoordHeader {
    TexCoordHeader {
        offset: spec_truncate_usize(spec_u64_of(b.subrange(base, base + 8))),
        count: spec_truncate_usize(spec_u64_of(b.subrange(base + 8, base + 16))),
    }
}

/// The decoded texture header at a byte offset.
pub open spec fn spec_decode_texture_header(b: Seq<u8>, base: int) -> TextureHeader {
    TextureHeader {
        offset: spec_truncate_usize(spec_u64_of(b.subrange(base, base + 8))),
        size: spec_truncate_usize(spec_u64_of(b.subrange(base + 8, base + 16))),
        format: TextureFormat(spec_truncate_usize(spec_u64_of(b.subrange(base + 16, base + 24)))),
        width: spec_field32(b, base + 24),
        height: spec_field32(b, base + 28),
    }
}

/// The decoded sampler record at a byte offset.
pub open spec fn spec_decode_sampler(b: Seq<u8>, base: int) -> Sampler {
    Sampler {
        mag_filter: b[base],
        min_filter: b[base + 1],
        mipmap_filter: b[base + 2],
        address_mode_u: b[base + 3],
        address_mode_v: b[base + 4],
    }
}

/// The decoded optional texture slot at a byte offset: a zero presence word
/// means no slot.
pub open spec fn spec_decode_slot(b: Seq<u8>, base: int) -> Option<TextureSlot> {
    if spec_field32(b, base) == 0 {
        None
    } else {
        Some(
            TextureSlot {
                texture_index: spec_field32(b, base + 4),
                uv_index: spec_field32(b, base + 8),
                sampler_index: spec_field32(b, base + 12),
            },
        )
    }
}

/// The decoded material record at a byte offset.
pub open spec fn spec_decode_material(b: Seq<u8>, base: int) -> MaterialRecord {
    MaterialRecord {
        base_color: spec_decode_slot(b, base),
        metallic_roughness: spec_decode_slot(b, base + 16),
        normal: spec_decode_slot(b, base + 32),
        occlusion: spec_decode_slot(b, base + 48),
        emissive: spec_decode_slot(b, base + 64),
        base_color_factor: [
            spec_field32(b, base + 80),
            spec_field32(b, base + 84),
            spec_field32(b, base + 88),
            spec_field32(b, base + 92),
        ],
        emissive_factor: [
            spec_field32(b, base + 96),
            spec_field32(b, base + 100),
            spec_field32(b, base + 104),
        ],
        metallic_factor: spec_field32(b, base + 108),
        roughness_factor: spec_field32(b, base + 112),
        occlusion_strength: spec_field32(b, base + 116),
        normal_scale: spec_field32(b, base + 120),
        alpha_cutoff: spec_field32(b, base + 124),
        alpha_mode: b[base + 128],
        double_sided: b[base + 129],
    }
}

/// Resolve one optional texture slot of a material against the decoded
/// texture-header and sampler tables, the way a material is instantiated:
/// no slot means no view; a slot whose texture exists yields a view of that
/// texture's byte range, sampled with the named sampler or, when that index
/// is out of range, the default sampler; a slot naming a missing texture
/// yields no view.
pub fn resolve_texture(
    texture_headers: &Vec<TextureHeader>,
    samplers: &Vec<Sampler>,
    slot: &Option<TextureSlot>,
    is_srgb: bool,
) -> (r: Option<TextureView>)
    ensures
        match *slot {
            None => r is None,
            Some(slot) => {
                if slot.texture_index < texture_headers@.len() {
                    let header = texture_headers@[slot.texture_index as int];
                    r == Some(
                        TextureView {
                            texture_offset: header.offset,
                            texture_size: header.size,
                            format: header.format,
                            width: header.width,
                            height: header.height,
                            uv_index: slot.uv_index,
                            sampler: if slot.sampler_index < samplers@.len() {
                                samplers@[slot.sampler_index as int]
                            } else {
                                Sampler {
                                    mag_filter: 1,
                                    min_filter: 1,
                                    mipmap_filter: 1,
                                    address_mode_u: 2,
                                    address_mode_v: 2,
                                }
                            },
                            is_srgb: is_srgb,
                        },
                    )
                } else {
                    r is None
                }
            },
        },
{
    match slot {
        None => None,
        Some(slot) => {
            if (slot.texture_index as usize) < texture_headers.len() {
                let header = texture_headers[slot.texture_index as usize];
                let sampler = if (slot.sampler_index as usize) < samplers.len() {
                    samplers[slot.sampler_index as usize]
                } else {
                    Sampler::default()
                };
                Some(
                    TextureView {
                        texture_offset: header.offset,
                        texture_size: header.size,
                        format: header.format,
                        width: header.width,
                        height: header.height,
                        uv_index: slot.uv_index,
                        sampler,
                        is_srgb,
                    },
                )
            } else {
                None
            }
        }
    }
}


impl SceneBuffer {
    /// Decode the primitive header table.
    pub fn primitive_headers(&self) -> (r: Option<Vec<PrimitiveHeader>>)
        ensures
            match r {
                Some(v) => spec_decode_scene_header(self@) matches Some(h)
                    && spec_primitive_table_valid(self@) && {
                    &&& v@.len() == h.primitive_header_count
                    &&& forall|j: int| 0 <= j < v@.len() ==> #[trigger] v@[j]
                        == spec_decode_primitive_header(
                            self@,
                            h.primitive_header_offset + PRIMITIVE_HEADER_BYTES * j,
                        )
                },
                None => !spec_primitive_table_valid(self@),
            },
    {
        let h = match self.scene_header() {
            Some(h) => h,
            None => {
                return None;
            }
        };
        let n = self.0.len();
        if h.primitive_header_count > usize::MAX / PRIMITIVE_HEADER_BYTES {
            proof {
                lemma_count_overflows(h.primitive_header_count, PRIMITIVE_HEADER_BYTES);
            }
            return None;
        }
        let span = PRIMITIVE_HEADER_BYTES * h.primitive_header_count;
        if span > n || h.primitive_header_offset > n - span {
            return None;
        }
        let mut v: Vec<PrimitiveHeader> = Vec::new();
        let mut j: usize = 0;
        while j < h.primitive_header_count
            invariant
                j <= h.primitive_header_count,
                n == self@.len(),
                h.primitive_header_offset + PRIMITIVE_HEADER_BYTES * h.primitive_header_count
                    <= self@.len(),
                v@.len() == j,
                forall|t: int| 0 <= t < j ==> #[trigger] v@[t] == spec_decode_primitive_header(
                    self@,
                    h.primitive_header_offset + PRIMITIVE_HEADER_BYTES * t,
                ),
            decreases h.primitive_header_count - j,
        {
            let base = h.primitive_header_offset + PRIMITIVE_HEADER_BYTES * j;
            let ph = self.decode_primitive_header_at(base);
            v.push(ph);
            j = j + 1;
        }
        Some(v)
    }

    /// Decode one primitive header at a byte offset.
    fn decode_primitive_header_at(&self, base: usize) -> (r: PrimitiveHeader)
        requires
            base + PRIMITIVE_HEADER_BYTES <= self@.len(),
        ensures
            r == spec_decode_primitive_header(self@, base as int),
    {
        let _len = self.0.len();
        PrimitiveHeader {
            vertex_offset: truncate_usize(u64_from_le(&self.0, base)),
            vertex_count: truncate_usize(u64_from_le(&self.0, base + 8)),
            index_offset: truncate_usize(u64_from_le(&self.0, base + 16)),
            index_count: truncate_usize(u64_from_le(&self.0, base + 24)),
            uv_header_offset: truncate_usize(u64_from_le(&self.0, base + 32)),
            uv_set_count: truncate_usize(u64_from_le(&self.0, base + 40)),
            material_index: truncate_usize(u64_from_le(&self.0, base + 48)),
        }
    }
}

/// The decoded primitive header at a byte offset; stored values beyond the
/// address space are clamped and fail the later bounds checks.
pub open spec fn spec_decode_primitive_header(b: Seq<u8>, base: int) -> PrimitiveHeader {
    PrimitiveHeader {
        vertex_offset: spec_truncate_usize(spec_u64_of(b.subrange(base, base + 8))),
        vertex_count: spec_truncate_usize(spec_u64_of(b.subrange(base + 8, base + 16))),
        index_offset: spec_truncate_usize(spec_u64_of(b.subrange(base + 16, base + 24))),
        index_count: spec_truncate_usize(spec_u64_of(b.subrange(base + 24, base + 32))),
        uv_header_offset: spec_truncate_usize(spec_u64_of(b.subrange(base + 32, base + 40))),
        uv_set_count: spec_truncate_usize(spec_u64_of(b.subrange(base + 40, base + 48))),
        material_index: spec_truncate_usize(spec_u64_of(b.subrange(base + 48, base + 56))),
    }
}


impl SceneBuffer {

    /// Decode the texture-coordinate header table.
    pub fn texcoord_headers(&self) -> (r: Option<Vec<TexCoordHeader>>)
        ensures
            match r {
                Some(v) => spec_decode_scene_header(self@) matches Some(h)
                    && spec_texcoord_table_valid(self@) && {
                    &&& v@.len() == h.uv_header_count
                    &&& forall|j: int| 0 <= j < v@.len() ==> #[trigger] v@[j] == spec_decode_texcoord_header(
                        self@,
                        h.uv_header_offset + TEXCOORD_HEADER_BYTES * j,
                    )
                },
                None => !spec_texcoord_table_valid(self@),
            },
    {
        let h = match self.scene_header() {
            Some(h) => h,
            None => {
                return None;
            }
        };
        let n = self.0.len();
        if h.uv_header_count > usize::MAX / TEXCOORD_HEADER_BYTES {
            proof {
                lemma_count_overflows(h.uv_header_count, TEXCOORD_HEADER_BYTES);
            }
            return None;
        }
        let span = TEXCOORD_HEADER_BYTES * h.uv_header_count;
        if span > n || h.uv_header_offset > n - span {
            return None;
        }
        let mut v: Vec<TexCoordHeader> = Vec::new();
        let mut j: usize = 0;
        while j < h.uv_header_count
            invariant
                j <= h.uv_header_count,
                n == self@.len(),
                h.uv_header_offset + TEXCOORD_HEADER_BYTES * h.uv_header_count <= self@.len(),
                v@.len() == j,
                forall|t: int| 0 <= t < j ==> #[trigger] v@[t] == spec_decode_texcoord_header(
                    self@,
                    h.uv_header_offset + TEXCOORD_HEADER_BYTES * t,
                ),
            decreases h.uv_header_count - j,
        {
            let base = h.uv_header_offset + TEXCOORD_HEADER_BYTES * j;
            let one = self.decode_texcoord_header_at(base);
            v.push(one);
            j = j + 1;
        }
        Some(v)
    }

    /// Decode the texture header table.
    pub fn texture_headers(&self) -> (r: Option<Vec<TextureHeader>>)
        ensures
            match r {
                Some(v) => spec_decode_scene_header(self@) matches Some(h)
                    && spec_texture_table_valid(self@) && {
                    &&& v@.len() == h.texture_header_count
                    &&& forall|j: int| 0 <= j < v@.len() ==> #[trigger] v@[j] == spec_decode_texture_header(
                        self@,
                        h.texture_header_offset + TEXTURE_HEADER_BYTES * j,
                    )
                },
                None => !spec_texture_table_valid(self@),
            },
    {
        let h = match self.scene_header() {
            Some(h) => h,
            None => {
                return None;
            }
        };
        let n = self.0.len();
        if h.texture_header_count > usize::MAX / TEXTURE_HEADER_BYTES {
            proof {
                lemma_count_overflows(h.texture_header_count, TEXTURE_HEADER_BYTES);
            }
            return None;
        }
        let span = TEXTURE_HEADER_BYTES * h.texture_header_count;
        if span > n || h.texture_header_offset > n - span {
            return None;
        }
        let mut v: Vec<TextureHeader> = Vec::new();
        let mut j: usize = 0;
        while j < h.texture_header_count
            invariant
                j <= h.texture_header_count,
                n == self@.len(),
                h.texture_header_offset + TEXTURE_HEADER_BYTES * h.texture_header_count <= self@.len(),
                v@.len() == j,
                forall|t: int| 0 <= t < j ==> #[trigger] v@[t] == spec_decode_texture_header(
                    self@,
                    h.texture_header_offset + TEXTURE_HEADER_BYTES * t,
                ),
            decreases h.texture_header_count - j,
        {
            let base = h.texture_header_offset + TEXTURE_HEADER_BYTES * j;
            let one = self.decode_texture_header_at(base);
            v.push(one);
            j = j + 1;
        }
        Some(v)
    }

    /// Decode the sampler record table.
    pub fn sampler_records(&self) -> (r: Option<Vec<Sampler>>)
        ensures
            match r {
                Some(v) => spec_decode_scene_header(self@) matches Some(h)
                    && spec_sampler_table_valid(self@) && {
                    &&& v@.len() == h.samplers_count
                    &&& forall|j: int| 0 <= j < v@.len() ==> #[trigger] v@[j] == spec_decode_sampler(
                        self@,
                        h.samplers_offset + SAMPLER_BYTES * j,
                    )
                },
                None => !spec_sampler_table_valid(self@),
            },
    {
        let h = match self.scene_header() {
            Some(h) => h,
            None => {
                return None;
            }
        };
        let n = self.0.len();
        if h.samplers_count > usize::MAX / SAMPLER_BYTES {
            proof {
                lemma_count_overflows(h.samplers_count, SAMPLER_BYTES);
            }
            return None;
        }
        let span = SAMPLER_BYTES * h.samplers_count;
        if span > n || h.samplers_offset > n - span {
            return None;
        }
        let mut v: Vec<Sampler> = Vec::new();
        let mut j: usize = 0;
        while j < h.samplers_count
            invariant
                j <= h.samplers_count,
                n == self@.len(),
                h.samplers_offset + SAMPLER_BYTES * h.samplers_count <= self@.len(),
                v@.len() == j,
                forall|t: int| 0 <= t < j ==> #[trigger] v@[t] == spec_decode_sampler(
                    self@,
                    h.samplers_offset + SAMPLER_BYTES * t,
                ),
            decreases h.samplers_count - j,
        {
            let base = h.samplers_offset + SAMPLER_BYTES * j;
            let one = self.decode_sampler_at(base);
            v.push(one);
            j = j + 1;
        }
        Some(v)
    }

    /// Decode the material record table.
    pub fn material_records(&self) -> (r: Option<Vec<MaterialRecord>>)
        ensures
            match r {
                Some(v) => spec_decode_scene_header(self@) matches Some(h)
                    && spec_material_table_valid(self@) && {
                    &&& v@.len() == h.materials_count
                    &&& forall|j: int| 0 <= j < v@.len() ==> #[trigger] v@[j] == spec_decode_material(
                        self@,
                        h.materials_offset + MATERIAL_BYTES * j,
                    )
                },
                None => !spec_material_table_valid(self@),
            },
    {
        let h = match self.scene_header() {
            Some(h) => h,
            None => {
                return None;
            }
        };
        let n = self.0.len();
        if h.materials_count > usize::MAX / MATERIAL_BYTES {
            proof {
                lemma_count_overflows(h.materials_count, MATERIAL_BYTES);
            }
            return None;
        }
        let span = MATERIAL_BYTES * h.materials_count;
        if span > n || h.materials_offset > n - span {
            return None;
        }
        let mut v: Vec<MaterialRecord> = Vec::new();
        let mut j: usize = 0;
        while j < h.materials_count
            invariant
                j <= h.materials_count,
                n == self@.len(),
                h.materials_offset + MATERIAL_BYTES * h.materials_count <= self@.len(),
                v@.len() == j,
                forall|t: int| 0 <= t < j ==> #[trigger] v@[t] == spec_decode_material(
                    self@,
                    h.materials_offset + MATERIAL_BYTES * t,
                ),
            decreases h.materials_count - j,
        {
            let base = h.materials_offset + MATERIAL_BYTES * j;
            let one = self.decode_material_at(base);
            v.push(one);
            j = j + 1;
        }
        Some(v)
    }

    /// Decode one texture-coordinate header at a byte offset.
    fn decode_texcoord_header_at(&self, base: usize) -> (r: TexCoordHeader)
        requires
            base + TEXCOORD_HEADER_BYTES <= self@.len(),
        ensures
            r == spec_decode_texcoord_header(self@, base as int),
    {
        let _len = self.0.len();
        TexCoordHeader {
            offset: truncate_usize(u64_from_le(&self.0, base)),
            count: truncate_usize(u64_from_le(&self.0, base + 8)),
        }
    }

    /// Decode one texture header at a byte offset.
    fn decode_texture_header_at(&self, base: usize) -> (r: TextureHeader)
        requires
            base + TEXTURE_HEADER_BYTES <= self@.len(),
        ensures
            r == spec_decode_texture_header(self@, base as int),
    {
        let _len = self.0.len();
        TextureHeader {
            offset: truncate_usize(u64_from_le(&self.0, base)),
            size: truncate_usize(u64_from_le(&self.0, base + 8)),
            format: TextureFormat(truncate_usize(u64_from_le(&self.0, base + 16))),
            width: u32_from_le(&self.0, base + 24),
            height: u32_from_le(&self.0, base + 28),
        }
    }

    /// Decode one sampler record at a byte offset.
    fn decode_sampler_at(&self, base: usize) -> (r: Sampler)
        requires
            base + SAMPLER_BYTES <= self@.len(),
        ensures
            r == spec_decode_sampler(self@, base as int),
    {
        let _len = self.0.len();
        Sampler {
            mag_filter: self.0[base],
            min_filter: self.0[base + 1],
            mipmap_filter: self.0[base + 2],
            address_mode_u: self.0[base + 3],
            address_mode_v: self.0[base + 4],
        }
    }

    /// Decode one optional texture slot at a byte offset.
    fn decode_slot_at(&self, base: usize) -> (r: Option<TextureSlot>)
        requires
            base + 16 <= self@.len(),
        ensures
            r == spec_decode_slot(self@, base as int),
    {
        let _len = self.0.len();
        let present = u32_from_le(&self.0, base);
        if present == 0 {
            None
        } else {
            Some(
                TextureSlot {
                    texture_index: u32_from_le(&self.0, base + 4),
                    uv_index: u32_from_le(&self.0, base + 8),
                    sampler_index: u32_from_le(&self.0, base + 12),
                },
            )
        }
    }

    /// Decode one material record at a byte offset.
    fn decode_material_at(&self, base: usize) -> (r: MaterialRecord)
        requires
            base + MATERIAL_BYTES <= self@.len(),
        ensures
            r == spec_decode_material(self@, base as int),
    {
        let _len = self.0.len();
        MaterialRecord {
            base_color: self.decode_slot_at(base),
            metallic_roughness: self.decode_slot_at(base + 16),
            normal: self.decode_slot_at(base + 32),
            occlusion: self.decode_slot_at(base + 48),
            emissive: self.decode_slot_at(base + 64),
            base_color_factor: [
                u32_from_le(&self.0, base + 80),
                u32_from_le(&self.0, base + 84),
                u32_from_le(&self.0, base + 88),
                u32_from_le(&self.0, base + 92),
            ],
            emissive_factor: [
                u32_from_le(&self.0, base + 96),
                u32_from_le(&self.0, base + 100),
                u32_from_le(&self.0, base + 104),
            ],
            metallic_factor: u32_from_le(&self.0, base + 108),
            roughness_factor: u32_from_le(&self.0, base + 112),
            occlusion_strength: u32_from_le(&self.0, base + 116),
            normal_scale: u32_from_le(&self.0, base + 120),
            alpha_cutoff: u32_from_le(&self.0, base + 124),
            alpha_mode: self.0[base + 128],
            double_sided: self.0[base + 129],
        }
    }
}

} // verus!







