//! The packed model buffer: the older, simpler sibling of the scene buffer.
//! One contiguous little-endian blob holding a model header, mesh and
//! material header tables, and the raw vertex, index and texture payloads,
//! laid out back to back without padding.

use vstd::prelude::*;
use crate::bytes::{spec_u32_le, spec_u64_le, spec_u64_of, u64_from_le};
use crate::records::TextureFormat;
use crate::scene_format::{push_u32, push_u64};

verus! {

/// Size of the model header in bytes: 5 fields of 8 bytes.
pub const MODEL_HEADER_BYTES: usize = 40;

/// Size of one mesh header: 5 fields of 8 bytes.
pub const MESH_HEADER_BYTES: usize = 40;

/// Size of one material header.
pub const MATERIAL_HEADER_BYTES: usize = 32;

/// Byte offsets of the regions of a model buffer, in layout order.
#[derive(Clone, Copy, Debug, PartialEq)]
pub struct ModelHeader {
    pub mesh_header_offset: usize,
    pub material_header_offset: usize,
    pub vertices_offset: usize,
    pub indices_offset: usize,
    pub texture_offset: usize,
}

/// One mesh: byte ranges of its vertices and indices inside their payload
/// regions, and the material it uses.
#[derive(Clone, Copy, Debug, PartialEq)]
pub struct MeshHeader {
    pub vertex_offset: usize,
    pub vertex_count: usize,
    pub index_offset: usize,
    pub index_count: usize,
    pub material_index: usize,
}

/// One material texture: its byte range inside the texture payload, its
/// pixel format and dimensions.
#[derive(Clone, Copy, Debug, PartialEq)]
pub struct MaterialHeader {
    pub offset: usize,
    pub size: usize,
    pub format: TextureFormat,
    pub width: u32,
    pub height: u32,
}

/// The little-endian image of the model header.
pub open spec fn spec_model_header_bytes(h: ModelHeader) -> Seq<u8> {
    spec_u64_le(h.mesh_header_offset as u64) + spec_u64_le(h.material_header_offset as u64)
        + spec_u64_le(h.vertices_offset as u64) + spec_u64_le(h.indices_offset as u64)
        + spec_u64_le(h.texture_offset as u64)
}

/// The little-endian image of one mesh header.
pub open spec fn spec_mesh_header_bytes(h: MeshHeader) -> Seq<u8> {
    spec_u64_le(h.vertex_offset as u64) + spec_u64_le(h.vertex_count as u64) + spec_u64_le(
        h.index_offset as u64,
    ) + spec_u64_le(h.index_count as u64) + spec_u64_le(h.material_index as u64)
}

/// The little-endian image of one material header.
pub open spec fn spec_material_header_bytes(h: MaterialHeader) -> Seq<u8> {
    spec_u64_le(h.offset as u64) + spec_u64_le(h.size as u64) + spec_u64_le(h.format.0 as u64)
        + spec_u32_le(h.width) + spec_u32_le(h.height)
}

/// The concatenated images of the mesh header table.
pub open spec fn spec_mesh_table_bytes(hs: Seq<MeshHeader>) -> Seq<u8>
    decreases hs.len(),
{
    if hs.len() == 0 {
        Seq::empty()
    } else {
        spec_mesh_table_bytes(hs.drop_last()) + spec_mesh_header_bytes(hs.last())
    }
}

/// The concatenated images of the material header table.
pub open spec fn spec_material_table_bytes(hs: Seq<MaterialHeader>) -> Seq<u8>
    decreases hs.len(),
{
    if hs.len() == 0 {
        Seq::empty()
    } else {
        spec_material_table_bytes(hs.drop_last()) + spec_material_header_bytes(hs.last())
    }
}

/// The whole packed model buffer, for given inputs: header, mesh table,
/// material table, vertices, indices, textures, back to back.
pub open spec fn spec_model_buffer_bytes(
    mesh_headers: Seq<MeshHeader>,
    material_headers: Seq<MaterialHeader>,
    vertices: Seq<u8>,
    indices: Seq<u8>,
    textures: Seq<u8>,
) -> Seq<u8> {
    spec_model_header_bytes(spec_model_layout(mesh_headers, material_headers, vertices, indices))
        + spec_mesh_table_bytes(mesh_headers) + spec_material_table_bytes(material_headers)
        + vertices + indices + textures
}

/// The header a packed model buffer records: each region starts where the
/// previous one ends.
pub open spec fn spec_model_layout(
    mesh_headers: Seq<MeshHeader>,
    material_headers: Seq<MaterialHeader>,
    vertices: Seq<u8>,
    indices: Seq<u8>,
) -> ModelHeader {
    ModelHeader {
        mesh_header_offset: MODEL_HEADER_BYTES as usize,
        material_header_offset: (MODEL_HEADER_BYTES + MESH_HEADER_BYTES * mesh_headers.len())
            as usize,
        vertices_offset: (MODEL_HEADER_BYTES + MESH_HEADER_BYTES * mesh_headers.len()
            + MATERIAL_HEADER_BYTES * material_headers.len()) as usize,
        indices_offset: (MODEL_HEADER_BYTES + MESH_HEADER_BYTES * mesh_headers.len()
            + MATERIAL_HEADER_BYTES * material_headers.len() + vertices.len()) as usize,
        texture_offset: (MODEL_HEADER_BYTES + MESH_HEADER_BYTES * mesh_headers.len()
            + MATERIAL_HEADER_BYTES * material_headers.len() + vertices.len() + indices.len())
            as usize,
    }
}

/// Encode the model header.
fn encode_model_header(h: &ModelHeader) -> (r: Vec<u8>)
    ensures
        r@ == spec_model_header_bytes(*h),
        r@.len() == MODEL_HEADER_BYTES,
{
    let mut r: Vec<u8> = Vec::new();
    push_u64(&mut r, h.mesh_header_offset as u64);
    push_u64(&mut r, h.material_header_offset as u64);
    push_u64(&mut r, h.vertices_offset as u64);
    push_u64(&mut r, h.indices_offset as u64);
    push_u64(&mut r, h.texture_offset as u64);
    proof {
        assert(r@ =~= spec_model_header_bytes(*h));
    }
    r
}

/// Encode one mesh header.
fn encode_mesh_header(h: &MeshHeader) -> (r: Vec<u8>)
    ensures
        r@ == spec_mesh_header_bytes(*h),
        r@.len() == MESH_HEADER_BYTES,
{
    let mut r: Vec<u8> = Vec::new();
    push_u64(&mut r, h.vertex_offset as u64);
    push_u64(&mut r, h.vertex_count as u64);
    push_u64(&mut r, h.index_offset as u64);
    push_u64(&mut r, h.index_count as u64);
    push_u64(&mut r, h.material_index as u64);
    proof {
        assert(r@ =~= spec_mesh_header_bytes(*h));
    }
    r
}

/// Encode one material header.
fn encode_material_header(h: &MaterialHeader) -> (r: Vec<u8>)
    ensures
        r@ == spec_material_header_bytes(*h),
        r@.len() == MATERIAL_HEADER_BYTES,
{
    let mut r: Vec<u8> = Vec::new();
    push_u64(&mut r, h.offset as u64);
    push_u64(&mut r, h.size as u64);
    push_u64(&mut r, h.format.0 as u64);
    push_u32(&mut r, h.width);
    push_u32(&mut r, h.height);
    proof {
        assert(r@ =~= spec_material_header_bytes(*h));
    }
    r
}

/// Append raw bytes to a buffer.
fn append_bytes(out: &mut Vec<u8>, data: &Vec<u8>)
    requires
        old(out)@.len() + data@.len() <= usize::MAX,
    ensures
        final(out)@ == old(out)@ + data@,
{
    let n = data.len();
    let mut i: usize = 0;
    while i < n
        invariant
            i <= n,
            n == data@.len(),
            out@ == old(out)@ + data@.subrange(0, i as int),
        decreases n - i,
    {
        out.push(data[i]);
        proof {
            assert(out@ =~= old(out)@ + data@.subrange(0, i + 1));
        }
        i = i + 1;
    }
    proof {
        assert(data@.subrange(0, n as int) =~= data@);
    }
}

/// A packed model asset.
pub struct ModelBuffer(Vec<u8>);

impl View for ModelBuffer {
    type V = Seq<u8>;

    closed spec fn view(&self) -> Seq<u8> {
        self.0@
    }
}

impl ModelBuffer {
    /// Pack a model: the header, then each table and payload back to back.
    pub fn new(
        mesh_headers: &Vec<MeshHeader>,
        material_headers: &Vec<MaterialHeader>,
        vertices: &Vec<u8>,
        indices: &Vec<u8>,
        textures: &Vec<u8>,
    ) -> (r: Self)
        requires
            MODEL_HEADER_BYTES + MESH_HEADER_BYTES * mesh_headers@.len() + MATERIAL_HEADER_BYTES
                * material_headers@.len() + vertices@.len() + indices@.len() + textures@.len()
                <= usize::MAX,
        ensures
            r@ == spec_model_buffer_bytes(
                mesh_headers@,
                material_headers@,
                vertices@,
                indices@,
                textures@,
            ),
    {
        let mesh_header_offset = MODEL_HEADER_BYTES;
        let material_header_offset = mesh_header_offset + MESH_HEADER_BYTES * mesh_headers.len();
        let vertices_offset = material_header_offset + MATERIAL_HEADER_BYTES
            * material_headers.len();
        let indices_offset = vertices_offset + vertices.len();
        let texture_offset = indices_offset + indices.len();
        let header = ModelHeader {
            mesh_header_offset,
            material_header_offset,
            vertices_offset,
            indices_offset,
            texture_offset,
        };
        proof {
            assert(header == spec_model_layout(
                mesh_headers@,
                material_headers@,
                vertices@,
                indices@,
            ));
        }
        let mut out = encode_model_header(&header);
        let mut i: usize = 0;
        while i < mesh_headers.len()
            invariant
                i <= mesh_headers@.len(),
                MODEL_HEADER_BYTES + MESH_HEADER_BYTES * mesh_headers@.len() <= usize::MAX,
                out@ == spec_model_header_bytes(spec_model_layout(
                    mesh_headers@,
                    material_headers@,
                    vertices@,
                    indices@,
                )) + spec_mesh_table_bytes(mesh_headers@.take(i as int)),
                out@.len() == MODEL_HEADER_BYTES + MESH_HEADER_BYTES * i,
            decreases mesh_headers@.len() - i,
        {
            let e = encode_mesh_header(&mesh_headers[i]);
            append_bytes(&mut out, &e);
            proof {
                assert(mesh_headers@.take(i + 1).drop_last() =~= mesh_headers@.take(i as int));
                assert(mesh_headers@.take(i + 1).last() == mesh_headers@[i as int]);
            }
            i = i + 1;
        }
        proof {
            assert(mesh_headers@.take(mesh_headers@.len() as int) =~= mesh_headers@);
        }
        let ghost after_mesh = out@;
        let mut j: usize = 0;
        while j < material_headers.len()
            invariant
                j <= material_headers@.len(),
                after_mesh.len() + MATERIAL_HEADER_BYTES * material_headers@.len() <= usize::MAX,
                out@ == after_mesh + spec_material_table_bytes(material_headers@.take(j as int)),
                out@.len() == after_mesh.len() + MATERIAL_HEADER_BYTES * j,
            decreases material_headers@.len() - j,
        {
            let e = encode_material_header(&material_headers[j]);
            append_bytes(&mut out, &e);
            proof {
                assert(material_headers@.take(j + 1).drop_last() =~= material_headers@.take(
                    j as int,
                ));
                assert(material_headers@.take(j + 1).last() == material_headers@[j as int]);
                assert(out@ =~= after_mesh + spec_material_table_bytes(
                    material_headers@.take(j + 1),
                ));
            }
            j = j + 1;
        }
        proof {
            assert(material_headers@.take(material_headers@.len() as int) =~= material_headers@);
        }
        append_bytes(&mut out, vertices);
        append_bytes(&mut out, indices);
        append_bytes(&mut out, textures);
        let r = ModelBuffer(out);
        proof {
            assert(r@ =~= spec_model_buffer_bytes(
                mesh_headers@,
                material_headers@,
                vertices@,
                indices@,
                textures@,
            ));
        }
        r
    }

    /// Wrap received bytes.
    pub fn from_bytes(bytes: Vec<u8>) -> (r: Self)
        ensures
            r@ == bytes@,
    {
        ModelBuffer(bytes)
    }

    /// The raw bytes of the buffer.
    pub fn buffer(&self) -> (r: &Vec<u8>)
        ensures
            r@ == self@,
    {
        &self.0
    }

    /// Decode the model header at offset 0.
    pub fn model_header(&self) -> (r: Option<ModelHeader>)
        ensures
            r == spec_decode_model_header(self@),
    {
        let n = self.0.len();
        if n < MODEL_HEADER_BYTES {
            return None;
        }
        let f0 = u64_from_le(&self.0, 0);
        let f1 = u64_from_le(&self.0, 8);
        let f2 = u64_from_le(&self.0, 16);
        let f3 = u64_from_le(&self.0, 24);
        let f4 = u64_from_le(&self.0, 32);
        proof {
            assert(f0 == spec_field_at(self@, 0));
            assert(f1 == spec_field_at(self@, 1));
            assert(f2 == spec_field_at(self@, 2));
            assert(f3 == spec_field_at(self@, 3));
            assert(f4 == spec_field_at(self@, 4));
        }
        if f0 > usize::MAX as u64 || f1 > usize::MAX as u64 || f2 > usize::MAX as u64 || f3
            > usize::MAX as u64 || f4 > usize::MAX as u64 {
            return None;
        }
        Some(
            ModelHeader {
                mesh_header_offset: f0 as usize,
                material_header_offset: f1 as usize,
                vertices_offset: f2 as usize,
                indices_offset: f3 as usize,
                texture_offset: f4 as usize,
            },
        )
    }
}

/// The 64-bit field at index `i` of the model header.
pub open spec fn spec_field_at(b: Seq<u8>, i: int) -> u64 {
    spec_u64_of(b.subrange(8 * i, 8 * i + 8))
}

/// The decoded model header of a buffer: present when the buffer holds at
/// least the header and every offset fits the address space.
pub open spec fn spec_decode_model_header(b: Seq<u8>) -> Option<ModelHeader> {
    if b.len() >= MODEL_HEADER_BYTES && (forall|i: int| 0 <= i < 5
        ==> spec_field_at(b, i) <= usize::MAX) {
        Some(
            ModelHeader {
                mesh_header_offset: spec_field_at(b, 0) as usize,
                material_header_offset: spec_field_at(b, 1) as usize,
                vertices_offset: spec_field_at(b, 2) as usize,
                indices_offset: spec_field_at(b, 3) as usize,
                texture_offset: spec_field_at(b, 4) as usize,
            },
        )
    } else {
        None
    }
}

/// Whether the mesh header table of a model buffer is readable: the header
/// decodes and the region between the mesh-header and material-header
/// offsets is ordered, in bounds and a whole number of mesh headers.
pub open spec fn spec_mesh_table_valid(b: Seq<u8>) -> bool {
    spec_decode_model_header(b) matches Some(h) && h.mesh_header_offset
        <= h.material_header_offset <= b.len() && (h.material_header_offset
        - h.mesh_header_offset) % (MESH_HEADER_BYTES as int) == 0
}

/// Whether the material header table of a model buffer is readable.
pub open spec fn spec_material_table_valid(b: Seq<u8>) -> bool {
    spec_decode_model_header(b) matches Some(h) && h.material_header_offset <= h.vertices_offset
        <= b.len() && (h.vertices_offset - h.material_header_offset) % (
    MATERIAL_HEADER_BYTES as int) == 0
}


/// Clamp a stored 64-bit offset or count into the address space; ranges
/// clamped this way fail the later bounds checks rather than wrapping.
pub open spec fn spec_clamp_usize(x: u64) -> usize {
    if x <= usize::MAX {
        x as usize
    } else {
        usize::MAX as usize
    }
}

fn clamp_usize(x: u64) -> (r: usize)
    ensures
        r == spec_clamp_usize(x),
{
    if x <= usize::MAX as u64 {
        x as usize
    } else {
        usize::MAX
    }
}

/// The decoded mesh header at a byte offset.
pub open spec fn spec_decode_mesh_header(b: Seq<u8>, base: int) -> MeshHeader {
    MeshHeader {
        vertex_offset: spec_clamp_usize(spec_u64_of(b.subrange(base, base + 8))),
        vertex_count: spec_clamp_usize(spec_u64_of(b.subrange(base + 8, base + 16))),
        index_offset: spec_clamp_usize(spec_u64_of(b.subrange(base + 16, base + 24))),
        index_count: spec_clamp_usize(spec_u64_of(b.subrange(base + 24, base + 32))),
        material_index: spec_clamp_usize(spec_u64_of(b.subrange(base + 32, base + 40))),
    }
}

impl ModelBuffer {
    /// Decode the mesh header table: the region between the mesh-header and
    /// material-header offsets, one header per 40 bytes.
    pub fn mesh_headers(&self) -> (r: Option<Vec<MeshHeader>>)
        ensures
            match r {
                Some(v) => spec_decode_model_header(self@) matches Some(h)
                    && spec_mesh_table_valid(self@) && {
                    &&& v@.len() == (h.material_header_offset - h.mesh_header_offset) as int / (
                    MESH_HEADER_BYTES as int)
                    &&& forall|j: int| 0 <= j < v@.len() ==> #[trigger] v@[j]
                        == spec_decode_mesh_header(
                            self@,
                            h.mesh_header_offset + MESH_HEADER_BYTES * j,
                        )
                },
                None => !spec_mesh_table_valid(self@),
            },
    {
        let h = match self.model_header() {
            Some(h) => h,
            None => {
                return None;
            }
        };
        let n = self.0.len();
        if h.mesh_header_offset > h.material_header_offset || h.material_header_offset > n {
            return None;
        }
        let span = h.material_header_offset - h.mesh_header_offset;
        if span % MESH_HEADER_BYTES != 0 {
            return None;
        }
        let count = span / MESH_HEADER_BYTES;
        let mut v: Vec<MeshHeader> = Vec::new();
        let mut j: usize = 0;
        while j < count
            invariant
                j <= count,
                n == self@.len(),
                h.mesh_header_offset + MESH_HEADER_BYTES * count <= self@.len(),
                v@.len() == j,
                forall|t: int| 0 <= t < j ==> #[trigger] v@[t] == spec_decode_mesh_header(
                    self@,
                    h.mesh_header_offset + MESH_HEADER_BYTES * t,
                ),
            decreases count - j,
        {
            let base = h.mesh_header_offset + MESH_HEADER_BYTES * j;
            let _len = self.0.len();
            v.push(
                MeshHeader {
                    vertex_offset: clamp_usize(u64_from_le(&self.0, base)),
                    vertex_count: clamp_usize(u64_from_le(&self.0, base + 8)),
                    index_offset: clamp_usize(u64_from_le(&self.0, base + 16)),
                    index_count: clamp_usize(u64_from_le(&self.0, base + 24)),
                    material_index: clamp_usize(u64_from_le(&self.0, base + 32)),
                },
            );
            j = j + 1;
        }
        Some(v)
    }
}


/// The decoded material header at a byte offset.
pub open spec fn spec_decode_material_header(b: Seq<u8>, base: int) -> MaterialHeader {
    MaterialHeader {
        offset: spec_clamp_usize(spec_u64_of(b.subrange(base, base + 8))),
        size: spec_clamp_usize(spec_u64_of(b.subrange(base + 8, base + 16))),
        format: TextureFormat(spec_clamp_usize(spec_u64_of(b.subrange(base + 16, base + 24)))),
        width: crate::bytes::spec_u32_of(b.subrange(base + 24, base + 28)),
        height: crate::bytes::spec_u32_of(b.subrange(base + 28, base + 32)),
    }
}

impl ModelBuffer {
    /// Decode the material header table: the region between the
    /// material-header and vertex offsets, one header per 32 bytes.
    pub fn material_headers(&self) -> (r: Option<Vec<MaterialHeader>>)
        ensures
            match r {
                Some(v) => spec_decode_model_header(self@) matches Some(h)
                    && spec_material_table_valid(self@) && {
                    &&& v@.len() == (h.vertices_offset - h.material_header_offset) as int / (
                    MATERIAL_HEADER_BYTES as int)
                    &&& forall|j: int| 0 <= j < v@.len() ==> #[trigger] v@[j]
                        == spec_decode_material_header(
                            self@,
                            h.material_header_offset + MATERIAL_HEADER_BYTES * j,
                        )
                },
                None => !spec_material_table_valid(self@),
            },
    {
        let h = match self.model_header() {
            Some(h) => h,
            None => {
                return None;
            }
        };
        let n = self.0.len();
        if h.material_header_offset > h.vertices_offset || h.vertices_offset > n {
            return None;
        }
        let span = h.vertices_offset - h.material_header_offset;
        if span % MATERIAL_HEADER_BYTES != 0 {
            return None;
        }
        let count = span / MATERIAL_HEADER_BYTES;
        let mut v: Vec<MaterialHeader> = Vec::new();
        let mut j: usize = 0;
        while j < count
            invariant
                j <= count,
                n == self@.len(),
                h.material_header_offset + MATERIAL_HEADER_BYTES * count <= self@.len(),
                v@.len() == j,
                forall|t: int| 0 <= t < j ==> #[trigger] v@[t] == spec_decode_material_header(
                    self@,
                    h.material_header_offset + MATERIAL_HEADER_BYTES * t,
                ),
            decreases count - j,
        {
            let base = h.material_header_offset + MATERIAL_HEADER_BYTES * j;
            let _len = self.0.len();
            v.push(
                MaterialHeader {
                    offset: clamp_usize(u64_from_le(&self.0, base)),
                    size: clamp_usize(u64_from_le(&self.0, base + 8)),
                    format: TextureFormat(clamp_usize(u64_from_le(&self.0, base + 16))),
                    width: crate::bytes::u32_from_le(&self.0, base + 24),
                    height: crate::bytes::u32_from_le(&self.0, base + 28),
                },
            );
            j = j + 1;
        }
        Some(v)
    }
}

} // verus!


