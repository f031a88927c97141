//! Mesh data: vertex attributes, vertex index buffers and skin weights.
use vstd::prelude::*;
use crate::bytes::{
    u16_le_bytes, u32_le_bytes, push_u16_le, push_u32_le, u16_from_le, u32_from_le, lemma_u16_le_roundtrip,
    lemma_u32_le_roundtrip,
};
use crate::mesh_data::error::{Error, AttributeError};

pub mod error;
pub mod layout;

verus! {

/// Vertex attribute data with two, three or four `f32` components per vertex.
/// Each component is carried as its `f32` bit pattern (see `f32::to_bits`).
#[derive(Debug, Clone, PartialEq)]
pub enum VectorData {
    Vector2(Vec<[u32; 2]>),
    Vector3(Vec<[u32; 3]>),
    Vector4(Vec<[u32; 4]>),
}

impl VectorData {
    /// The components of each vertex.
    pub open spec fn vertices(&self) -> Seq<Seq<u32>> {
        match self {
            VectorData::Vector2(v) => v@.map_values(|a: [u32; 2]| a@),
            VectorData::Vector3(v) => v@.map_values(|a: [u32; 3]| a@),
            VectorData::Vector4(v) => v@.map_values(|a: [u32; 4]| a@),
        }
    }

    /// The number of vertices.
    pub fn len(&self) -> (r: usize)
        ensures
            r == self.vertices().len(),
    {
        match self {
            VectorData::Vector2(v) => v.len(),
            VectorData::Vector3(v) => v.len(),
            VectorData::Vector4(v) => v.len(),
        }
    }

    /// `true` when there are no vertices.
    pub fn is_empty(&self) -> (r: bool)
        ensures
            r == (self.vertices().len() == 0),
    {
        self.len() == 0
    }

    /// The components of each vertex as separate vectors.
    pub fn to_component_vecs(&self) -> (r: Vec<Vec<u32>>)
        ensures
            r@.map_values(|p: Vec<u32>| p@) == self.vertices(),
    {
        let mut r: Vec<Vec<u32>> = Vec::new();
        let n = self.len();
        let mut i: usize = 0;
        while i < n
            invariant
                n == self.vertices().len(),
                i <= n,
                r@.len() == i,
                forall|k: int| 0 <= k < i ==> (#[trigger] r@[k])@ == self.vertices()[k],
            decreases n - i,
        {
            let mut p: Vec<u32> = Vec::new();
            match self {
                VectorData::Vector2(v) => {
                    let a = v[i];
                    p.push(a[0]);
                    p.push(a[1]);
                    assert(p@ =~= a@);
                },
                VectorData::Vector3(v) => {
                    let a = v[i];
                    p.push(a[0]);
                    p.push(a[1]);
                    p.push(a[2]);
                    assert(p@ =~= a@);
                },
                VectorData::Vector4(v) => {
                    let a = v[i];
                    p.push(a[0]);
                    p.push(a[1]);
                    p.push(a[2]);
                    p.push(a[3]);
                    assert(p@ =~= a@);
                },
            }
            r.push(p);
            i = i + 1;
        }
        assert(r@.map_values(|p: Vec<u32>| p@) =~= self.vertices());
        r
    }
}

/// Data corresponding to a named vertex attribute such as `"Position0"` or `"colorSet1"`.
#[derive(Debug, Clone)]
pub struct AttributeData {
    pub name: String,
    pub data: VectorData,
}

/// Vertex indices stored with the smallest integer type that holds all of them.
#[derive(Debug, PartialEq, Eq)]
pub enum VertexIndices {
    UnsignedInt(Vec<u32>),
    UnsignedShort(Vec<u16>),
}

/// The index type used by a mesh object's index buffer.
#[derive(Debug, PartialEq, Eq, Clone, Copy)]
pub enum DrawElementType {
    UnsignedShort,
    UnsignedInt,
}

/// Every index fits in a `u16`.
pub open spec fn indices_fit_u16(indices: Seq<u32>) -> bool {
    forall|k: int| 0 <= k < indices.len() ==> #[trigger] indices[k] <= u16::MAX
}

/// Converts the vertex indices to `u16` when all of them fit and keeps them as `u32` otherwise.
pub fn convert_indices(indices: &[u32]) -> (r: VertexIndices)
    ensures
        indices_fit_u16(indices@) ==> (r matches VertexIndices::UnsignedShort(v)
            && v@.len() == indices@.len()
            && forall|k: int| 0 <= k < indices@.len() ==> v@[k] == #[trigger] indices@[k]),
        !indices_fit_u16(indices@) ==> (r matches VertexIndices::UnsignedInt(v) && v@ == indices@),
{
    let mut shorts: Vec<u16> = Vec::new();
    let mut k: usize = 0;
    while k < indices.len()
        invariant
            k <= indices@.len(),
            shorts@.len() == k,
            forall|m: int| 0 <= m < k ==> shorts@[m] == #[trigger] indices@[m] && indices@[m] <= u16::MAX,
        decreases indices@.len() - k,
    {
        if indices[k] > 65535 {
            let mut ints: Vec<u32> = Vec::new();
            let mut m: usize = 0;
            while m < indices.len()
                invariant
                    m <= indices@.len(),
                    ints@ == indices@.take(m as int),
                decreases indices@.len() - m,
            {
                ints.push(indices[m]);
                m = m + 1;
                assert(indices@.take(m as int) =~= indices@.take(m - 1) + seq![indices@[m - 1]]);
            }
            assert(indices@.take(m as int) =~= indices@);
            return VertexIndices::UnsignedInt(ints);
        }
        shorts.push(indices[k] as u16);
        k = k + 1;
    }
    VertexIndices::UnsignedShort(shorts)
}

/// The draw element type that matches the index storage.
pub fn draw_element_type(indices: &VertexIndices) -> (r: DrawElementType)
    ensures
        r == (match indices {
            VertexIndices::UnsignedInt(_) => DrawElementType::UnsignedInt,
            VertexIndices::UnsignedShort(_) => DrawElementType::UnsignedShort,
        }),
{
    match indices {
        VertexIndices::UnsignedInt(_) => DrawElementType::UnsignedInt,
        VertexIndices::UnsignedShort(_) => DrawElementType::UnsignedShort,
    }
}

/// The little-endian bytes of a sequence of `u16` values.
pub open spec fn u16_seq_le_bytes(values: Seq<u16>) -> Seq<u8>
    decreases values.len(),
{
    if values.len() == 0 {
        Seq::<u8>::empty()
    } else {
        u16_seq_le_bytes(values.drop_last()) + u16_le_bytes(values.last())
    }
}

/// The little-endian bytes of a sequence of `u32` values.
pub open spec fn u32_seq_le_bytes(values: Seq<u32>) -> Seq<u8>
    decreases values.len(),
{
    if values.len() == 0 {
        Seq::<u8>::empty()
    } else {
        u32_seq_le_bytes(values.drop_last()) + u32_le_bytes(values.last())
    }
}

/// The bytes of the index buffer section for the given indices.
pub open spec fn vertex_index_bytes(indices: VertexIndices) -> Seq<u8> {
    match indices {
        VertexIndices::UnsignedInt(v) => u32_seq_le_bytes(v@),
        VertexIndices::UnsignedShort(v) => u16_seq_le_bytes(v@),
    }
}

/// Appends the indices to the index buffer as little-endian values of their storage type.
pub fn write_vertex_indices(indices: &VertexIndices, index_buffer: &mut Vec<u8>)
    ensures
        final(index_buffer)@ == old(index_buffer)@ + vertex_index_bytes(*indices),
{
    match indices {
        VertexIndices::UnsignedInt(v) => {
            let mut k: usize = 0;
            while k < v.len()
                invariant
                    k <= v@.len(),
                    index_buffer@ == old(index_buffer)@ + u32_seq_le_bytes(v@.take(k as int)),
                decreases v@.len() - k,
            {
                push_u32_le(index_buffer, v[k]);
                k = k + 1;
                assert(v@.take(k as int).drop_last() =~= v@.take(k - 1));
            }
            assert(v@.take(k as int) =~= v@);
        },
        VertexIndices::UnsignedShort(v) => {
            let mut k: usize = 0;
            while k < v.len()
                invariant
                    k <= v@.len(),
                    index_buffer@ == old(index_buffer)@ + u16_seq_le_bytes(v@.take(k as int)),
                decreases v@.len() - k,
            {
                push_u16_le(index_buffer, v[k]);
                k = k + 1;
                assert(v@.take(k as int).drop_last() =~= v@.take(k - 1));
            }
            assert(v@.take(k as int) =~= v@);
        },
    }
}


/// Assigns a weight to a particular vertex. The weight is carried as its `f32` bit pattern.
#[derive(Debug, Clone, Copy, PartialEq, Eq)]
pub struct VertexWeight {
    pub vertex_index: u32,
    pub vertex_weight: u32,
}

/// A collection of vertex weights for all the vertices influenced by a bone.
#[derive(Debug, Clone)]
pub struct BoneInfluence {
    pub bone_name: String,
    pub vertex_weights: Vec<VertexWeight>,
}

/// The data associated with a mesh object.
///
/// All attribute collections are indexed by `vertex_indices`,
/// so all attribute data should have the same number of elements.
#[derive(Debug, Clone)]
pub struct MeshObjectData {
    /// The name of this object.
    pub name: String,
    /// An additional identifier to differentiate multiple objects with the same name.
    pub subindex: u64,
    /// The name of the parent bone. The empty string represents no parent.
    pub parent_bone_name: String,
    pub sort_bias: i32,
    pub disable_depth_write: bool,
    pub disable_depth_test: bool,
    /// Vertex indices for the data of all attributes of this object.
    pub vertex_indices: Vec<u32>,
    pub positions: Vec<AttributeData>,
    pub normals: Vec<AttributeData>,
    pub binormals: Vec<AttributeData>,
    pub tangents: Vec<AttributeData>,
    pub texture_coordinates: Vec<AttributeData>,
    pub color_sets: Vec<AttributeData>,
    /// Vertex weights grouped by bone name.
    pub bone_influences: Vec<BoneInfluence>,
}

impl Default for MeshObjectData {
    fn default() -> (r: Self)
        ensures
            r.name@ == Seq::<char>::empty(),
            r.subindex == 0,
            r.parent_bone_name@ == Seq::<char>::empty(),
            r.sort_bias == 0,
            !r.disable_depth_write,
            !r.disable_depth_test,
            r.vertex_indices@.len() == 0,
            r.positions@.len() == 0,
            r.normals@.len() == 0,
            r.binormals@.len() == 0,
            r.tangents@.len() == 0,
            r.texture_coordinates@.len() == 0,
            r.color_sets@.len() == 0,
            r.bone_influences@.len() == 0,
    {
        MeshObjectData {
            name: String::new(),
            subindex: 0,
            parent_bone_name: String::new(),
            sort_bias: 0,
            disable_depth_write: false,
            disable_depth_test: false,
            vertex_indices: Vec::new(),
            positions: Vec::new(),
            normals: Vec::new(),
            binormals: Vec::new(),
            tangents: Vec::new(),
            texture_coordinates: Vec::new(),
            color_sets: Vec::new(),
            bone_influences: Vec::new(),
        }
    }
}

/// The vertex counts of a list of attributes.
pub open spec fn attribute_lengths(attributes: Seq<AttributeData>) -> Seq<nat> {
    attributes.map_values(|a: AttributeData| a.data.vertices().len())
}

/// Appends the vertex count of each attribute.
fn push_attribute_lengths(lengths: &mut Vec<usize>, attributes: &Vec<AttributeData>)
    ensures
        final(lengths)@.map_values(|n: usize| n as nat) == old(lengths)@.map_values(|n: usize| n as nat)
            + attribute_lengths(attributes@),
{
    let mut k: usize = 0;
    while k < attributes.len()
        invariant
            k <= attributes@.len(),
            lengths@.map_values(|n: usize| n as nat) == old(lengths)@.map_values(|n: usize| n as nat)
                + attribute_lengths(attributes@.take(k as int)),
        decreases attributes@.len() - k,
    {
        let ghost prev = lengths@;
        lengths.push(attributes[k].data.len());
        k = k + 1;
        assert(attribute_lengths(attributes@.take(k as int)) =~= attribute_lengths(attributes@.take(k - 1))
            + seq![attributes@[k - 1].data.vertices().len()]);
        assert(lengths@.map_values(|n: usize| n as nat) =~= prev.map_values(|n: usize| n as nat)
            + seq![attributes@[k - 1].data.vertices().len()]);
    }
    assert(attributes@.take(k as int) =~= attributes@);
}

impl MeshObjectData {
    /// The vertex counts of all attributes in the order positions, normals, binormals,
    /// tangents, texture coordinates and color sets.
    pub open spec fn all_attribute_lengths(&self) -> Seq<nat> {
        attribute_lengths(self.positions@) + attribute_lengths(self.normals@)
            + attribute_lengths(self.binormals@) + attribute_lengths(self.tangents@)
            + attribute_lengths(self.texture_coordinates@) + attribute_lengths(self.color_sets@)
    }

    /// All attributes have the same vertex count.
    pub open spec fn attribute_lengths_equal(&self) -> bool {
        forall|i: int, j: int| 0 <= i < self.all_attribute_lengths().len() && 0 <= j < self.all_attribute_lengths().len()
            ==> #[trigger] self.all_attribute_lengths()[i] == #[trigger] self.all_attribute_lengths()[j]
    }

    /// The vertex count shared by all attributes, or 0 when there are no attributes.
    pub open spec fn spec_vertex_count(&self) -> nat {
        if self.all_attribute_lengths().len() == 0 {
            0
        } else {
            self.all_attribute_lengths()[0]
        }
    }

    /// Calculates the vertex count.
    /// Returns an error if the lengths of the data in the attributes are not all equal.
    pub fn vertex_count(&self) -> (r: Result<usize, Error>)
        ensures
            self.attribute_lengths_equal() ==> (r matches Ok(n) && n == self.spec_vertex_count()),
            !self.attribute_lengths_equal() ==> (r matches Err(Error::AttributeDataLengthMismatch)),
    {
        let mut lengths: Vec<usize> = Vec::new();
        push_attribute_lengths(&mut lengths, &self.positions);
        push_attribute_lengths(&mut lengths, &self.normals);
        push_attribute_lengths(&mut lengths, &self.binormals);
        push_attribute_lengths(&mut lengths, &self.tangents);
        push_attribute_lengths(&mut lengths, &self.texture_coordinates);
        push_attribute_lengths(&mut lengths, &self.color_sets);
        let ghost all = self.all_attribute_lengths();
        assert(lengths@.map_values(|n: usize| n as nat) =~= all);
        assert forall|k: int| 0 <= k < lengths@.len() implies lengths@[k] as nat == #[trigger] all[k] by {
            assert(lengths@.map_values(|n: usize| n as nat)[k] == all[k]);
        }
        if lengths.len() == 0 {
            return Ok(0);
        }
        let first = lengths[0];
        let mut k: usize = 1;
        while k < lengths.len()
            invariant
                1 <= k <= lengths@.len(),
                lengths@.len() == all.len(),
                first == lengths@[0],
                forall|m: int| 0 <= m < lengths@.len() ==> lengths@[m] as nat == #[trigger] all[m],
                forall|m: int| 0 <= m < k ==> #[trigger] all[m] == first,
            all == self.all_attribute_lengths(),
            decreases lengths@.len() - k,
        {
            if lengths[k] != first {
                assert(all[k as int] != all[0]);
                assert(!self.attribute_lengths_equal()) by {
                    assert(self.all_attribute_lengths()[k as int] != self.all_attribute_lengths()[0]);
                }
                return Err(Error::AttributeDataLengthMismatch);
            }
            k = k + 1;
        }
        Ok(first)
    }

    /// Checks the vertex indices of the object before its buffers are created:
    /// the index count must be a multiple of 3, the attribute lengths must agree,
    /// and every index must refer to an existing vertex. Returns the vertex count.
    pub fn check_vertex_indices(&self) -> (r: Result<usize, Error>)
        ensures
            self.vertex_indices@.len() % 3 != 0 ==> (r matches Err(Error::NonTriangulatedFaces { vertex_index_count })
                && vertex_index_count == self.vertex_indices@.len()),
            self.vertex_indices@.len() % 3 == 0 && !self.attribute_lengths_equal()
                ==> (r matches Err(Error::AttributeDataLengthMismatch)),
            self.vertex_indices@.len() % 3 == 0 && self.attribute_lengths_equal() ==> {
                let n = self.spec_vertex_count();
                &&& (forall|k: int| 0 <= k < self.vertex_indices@.len() ==> #[trigger] self.vertex_indices@[k] < n)
                    ==> (r matches Ok(c) && c == n)
                &&& !(forall|k: int| 0 <= k < self.vertex_indices@.len() ==> #[trigger] self.vertex_indices@[k] < n)
                    ==> (r matches Err(Error::VertexIndexOutOfRange { vertex_index, vertex_count })
                        && vertex_count == n
                        && is_max_index(self.vertex_indices@, vertex_index as int))
            },
    {
        if self.vertex_indices.len() % 3 != 0 {
            return Err(Error::NonTriangulatedFaces { vertex_index_count: self.vertex_indices.len() });
        }
        let vertex_count = match self.vertex_count() {
            Ok(n) => n,
            Err(e) => return Err(e),
        };
        if self.vertex_indices.len() > 0 {
            let max_value = max_index(&self.vertex_indices);
            if max_value as usize >= vertex_count {
                return Err(Error::VertexIndexOutOfRange { vertex_index: max_value as usize, vertex_count });
            }
        }
        Ok(vertex_count)
    }
}

/// `m` is the largest of the indices.
pub open spec fn is_max_index(indices: Seq<u32>, m: int) -> bool {
    &&& exists|k: int| 0 <= k < indices.len() && indices[k] == m
    &&& forall|k: int| 0 <= k < indices.len() ==> #[trigger] indices[k] <= m
}

/// The largest of a nonempty list of indices.
fn max_index(indices: &Vec<u32>) -> (r: u32)
    requires
        indices@.len() > 0,
    ensures
        is_max_index(indices@, r as int),
{
    let mut best = indices[0];
    let mut k: usize = 1;
    while k < indices.len()
        invariant
            1 <= k <= indices@.len(),
            exists|m: int| 0 <= m < indices@.len() && indices@[m] == best,
            forall|m: int| 0 <= m < k ==> #[trigger] indices@[m] <= best,
        decreases indices@.len() - k,
    {
        if indices[k] > best {
            best = indices[k];
        }
        k = k + 1;
    }
    best
}

/// The skin weight bytes for mesh version 1.10: a little-endian `u16` vertex index
/// followed by the little-endian `f32` weight for each vertex weight.
pub open spec fn vertex_weight_bytes_v10(weights: Seq<VertexWeight>) -> Seq<u8>
    decreases weights.len(),
{
    if weights.len() == 0 {
        Seq::<u8>::empty()
    } else {
        vertex_weight_bytes_v10(weights.drop_last()) + u16_le_bytes(weights.last().vertex_index as u16)
            + u32_le_bytes(weights.last().vertex_weight)
    }
}

/// Encodes vertex weights for mesh version 1.10, where vertex indices are limited to `u16`.
/// Fails with the first vertex index that does not fit.
pub fn create_vertex_weights_v10(vertex_weights: &[VertexWeight]) -> (r: Result<Vec<u8>, Error>)
    ensures
        (forall|k: int| 0 <= k < vertex_weights@.len() ==> #[trigger] vertex_weights@[k].vertex_index <= u16::MAX)
            ==> (r matches Ok(bytes) && bytes@ == vertex_weight_bytes_v10(vertex_weights@)),
        !(forall|k: int| 0 <= k < vertex_weights@.len() ==> #[trigger] vertex_weights@[k].vertex_index <= u16::MAX)
            ==> (r matches Err(Error::SkinWeightVertexIndexExceedsLimit { vertex_index, limit, major_version, minor_version })
                && limit == u16::MAX && major_version == 1 && minor_version == 10
                && exists|k: int| 0 <= k < vertex_weights@.len()
                    && vertex_weights@[k].vertex_index == vertex_index
                    && vertex_weights@[k].vertex_index > u16::MAX
                    && forall|m: int| 0 <= m < k ==> #[trigger] vertex_weights@[m].vertex_index <= u16::MAX),
{
    let mut bytes: Vec<u8> = Vec::new();
    let mut k: usize = 0;
    while k < vertex_weights.len()
        invariant
            k <= vertex_weights@.len(),
            forall|m: int| 0 <= m < k ==> #[trigger] vertex_weights@[m].vertex_index <= u16::MAX,
            bytes@ == vertex_weight_bytes_v10(vertex_weights@.take(k as int)),
        decreases vertex_weights@.len() - k,
    {
        let weight = vertex_weights[k];
        if weight.vertex_index > 65535 {
            return Err(Error::SkinWeightVertexIndexExceedsLimit {
                vertex_index: weight.vertex_index as usize,
                limit: 65535,
                major_version: 1,
                minor_version: 10,
            });
        }
        push_u16_le(&mut bytes, weight.vertex_index as u16);
        push_u32_le(&mut bytes, weight.vertex_weight);
        k = k + 1;
        assert(vertex_weights@.take(k as int).drop_last() =~= vertex_weights@.take(k - 1));
        assert(bytes@ =~= vertex_weight_bytes_v10(vertex_weights@.take(k as int)));
    }
    assert(vertex_weights@.take(k as int) =~= vertex_weights@);
    Ok(bytes)
}

/// The vertex weights stored in mesh version 1.10 skin weight bytes: a little-endian `u16`
/// vertex index and the bit pattern of a little-endian `f32` weight every six bytes; bytes
/// left over at the end are ignored.
pub open spec fn vertex_weights_of_v10(bytes: Seq<u8>) -> Seq<VertexWeight> {
    Seq::new(bytes.len() / 6, |k: int| VertexWeight {
        vertex_index: u16_from_le(bytes[6 * k], bytes[6 * k + 1]) as u32,
        vertex_weight: u32_from_le(bytes[6 * k + 2], bytes[6 * k + 3], bytes[6 * k + 4], bytes[6 * k + 5]),
    })
}

/// Reads the vertex weights of mesh version 1.10 skin weight bytes, stopping when fewer
/// than six bytes remain.
pub fn read_vertex_weights_v10(bytes: &[u8]) -> (r: Vec<VertexWeight>)
    ensures
        r@ == vertex_weights_of_v10(bytes@),
{
    let len: usize = bytes.len();
    let mut weights: Vec<VertexWeight> = Vec::new();
    let mut k: usize = 0;
    while k < len / 6
        invariant
            len == bytes@.len(),
            k <= len / 6,
            weights@ =~= vertex_weights_of_v10(bytes@).take(k as int),
        decreases len / 6 - k,
    {
        let b = 6 * k;
        let vertex_index = bytes[b] as u16 + (bytes[b + 1] as u16) * 256;
        let vertex_weight = bytes[b + 2] as u32 + (bytes[b + 3] as u32) * 256 + (bytes[b + 4] as u32) * 65536
            + (bytes[b + 5] as u32) * 16777216;
        weights.push(VertexWeight { vertex_index: vertex_index as u32, vertex_weight });
        k = k + 1;
    }
    weights
}

/// The bytes of the first `n` weights start the bytes of all of them.
proof fn lemma_vertex_weight_bytes_prefix(weights: Seq<VertexWeight>, n: int)
    requires
        0 <= n <= weights.len(),
    ensures
        vertex_weight_bytes_v10(weights).len() == 6 * weights.len(),
        vertex_weight_bytes_v10(weights.take(n)) == vertex_weight_bytes_v10(weights).subrange(0, 6 * n),
    decreases weights.len(),
{
    if weights.len() > 0 {
        let rest = weights.drop_last();
        if n == weights.len() {
            assert(weights.take(n) =~= weights);
            lemma_vertex_weight_bytes_prefix(rest, 0);
            assert(vertex_weight_bytes_v10(weights).subrange(0, 6 * n) =~= vertex_weight_bytes_v10(weights));
        } else {
            lemma_vertex_weight_bytes_prefix(rest, n);
            assert(rest.take(n) =~= weights.take(n));
            assert(vertex_weight_bytes_v10(weights).subrange(0, 6 * n) =~= vertex_weight_bytes_v10(rest).subrange(0, 6 * n));
        }
    }
}

/// Reading skin weight bytes written for mesh version 1.10 gives back the vertex weights,
/// when every vertex index fits in 16 bits (writing refuses larger ones).
pub proof fn lemma_vertex_weights_v10_roundtrip(weights: Seq<VertexWeight>)
    requires
        forall|k: int| 0 <= k < weights.len() ==> #[trigger] weights[k].vertex_index <= u16::MAX,
    ensures
        vertex_weights_of_v10(vertex_weight_bytes_v10(weights)) == weights,
{
    let bytes = vertex_weight_bytes_v10(weights);
    lemma_vertex_weight_bytes_prefix(weights, weights.len() as int);
    assert forall|k: int| 0 <= k < weights.len() implies #[trigger] vertex_weights_of_v10(bytes)[k] == weights[k] by {
        lemma_vertex_weight_bytes_prefix(weights, k + 1);
        let prefix = vertex_weight_bytes_v10(weights.take(k + 1));
        assert(weights.take(k + 1).drop_last() =~= weights.take(k));
        lemma_vertex_weight_bytes_prefix(weights.take(k + 1), k);
        assert(prefix[6 * k] == bytes[6 * k]);
        assert(prefix[6 * k + 1] == bytes[6 * k + 1]);
        assert(prefix[6 * k + 2] == bytes[6 * k + 2]);
        assert(prefix[6 * k + 3] == bytes[6 * k + 3]);
        assert(prefix[6 * k + 4] == bytes[6 * k + 4]);
        assert(prefix[6 * k + 5] == bytes[6 * k + 5]);
        lemma_u16_le_roundtrip(weights[k].vertex_index as u16);
        lemma_u32_le_roundtrip(weights[k].vertex_weight);
    }
    assert(vertex_weights_of_v10(bytes) =~= weights);
}

/// Vertex attribute data types of mesh version 1.10.
#[derive(Debug, Clone, Copy, PartialEq, Eq)]
pub enum AttributeDataTypeV10 {
    Float3,
    Byte4,
    HalfFloat4,
    HalfFloat2,
    Float4,
    Float2,
}

/// Vertex attribute data types of mesh versions 1.8 and 1.9.
#[derive(Debug, Clone, Copy, PartialEq, Eq)]
pub enum AttributeDataTypeV8 {
    Float3,
    HalfFloat4,
    Float2,
    Byte4,
    Float4,
}

impl AttributeDataTypeV10 {
    /// The size of one element in bytes.
    pub fn get_size_in_bytes_v10(&self) -> (r: usize)
        ensures
            r == match self {
                AttributeDataTypeV10::Float3 => 12usize,
                AttributeDataTypeV10::Byte4 => 4usize,
                AttributeDataTypeV10::HalfFloat4 => 8usize,
                AttributeDataTypeV10::HalfFloat2 => 4usize,
                AttributeDataTypeV10::Float4 => 16usize,
                AttributeDataTypeV10::Float2 => 8usize,
            },
    {
        match self {
            AttributeDataTypeV10::Float3 => 4 * 3,
            AttributeDataTypeV10::Byte4 => 4,
            AttributeDataTypeV10::HalfFloat4 => 2 * 4,
            AttributeDataTypeV10::HalfFloat2 => 2 * 2,
            AttributeDataTypeV10::Float4 => 4 * 4,
            AttributeDataTypeV10::Float2 => 4 * 2,
        }
    }
}

impl AttributeDataTypeV8 {
    /// The size of one element in bytes.
    pub fn get_size_in_bytes_v8(&self) -> (r: usize)
        ensures
            r == match self {
                AttributeDataTypeV8::Float3 => 12usize,
                AttributeDataTypeV8::HalfFloat4 => 8usize,
                AttributeDataTypeV8::Float2 => 8usize,
                AttributeDataTypeV8::Byte4 => 4usize,
                AttributeDataTypeV8::Float4 => 16usize,
            },
    {
        match self {
            AttributeDataTypeV8::Float3 => 4 * 3,
            AttributeDataTypeV8::HalfFloat4 => 2 * 4,
            AttributeDataTypeV8::Float2 => 4 * 2,
            AttributeDataTypeV8::Byte4 => 4,
            AttributeDataTypeV8::Float4 => 4 * 4,
        }
    }
}

/// The byte offset and stride of an attribute: the attribute's offset within the element
/// plus the mesh object's offset into the vertex buffer with the attribute's buffer index,
/// and that buffer's stride. Only buffer indices 0 to 3 exist.
pub fn calculate_offset_stride(
    buffer_index: u64,
    attribute_offset: u64,
    vertex_buffer_offsets: [u32; 4],
    strides: [u32; 4],
) -> (r: Result<(u64, u64), AttributeError>)
    requires
        buffer_index < 4 ==> attribute_offset + vertex_buffer_offsets@[buffer_index as int] <= u64::MAX,
    ensures
        buffer_index < 4 ==> (r matches Ok((offset, stride))
            && offset == attribute_offset + vertex_buffer_offsets@[buffer_index as int]
            && stride == strides@[buffer_index as int]),
        buffer_index >= 4 ==> (r matches Err(AttributeError::NoOffsetOrStride(i)) && i == buffer_index),
{
    if buffer_index < 4 {
        let i = buffer_index as usize;
        Ok((attribute_offset + vertex_buffer_offsets[i] as u64, strides[i] as u64))
    } else {
        Err(AttributeError::NoOffsetOrStride(buffer_index))
    }
}


#[verifier::external_type_specification]
#[verifier::external_body]
pub struct ExRandomState(ahash::RandomState);

#[verifier::external_type_specification]
#[verifier::external_body]
#[verifier::reject_recursive_types(T)]
#[verifier::reject_recursive_types(S)]
pub struct ExAHashSet<T, S>(ahash::AHashSet<T, S>);

#[verifier::external_type_specification]
#[verifier::external_body]
#[verifier::reject_recursive_types(K)]
#[verifier::reject_recursive_types(V)]
#[verifier::reject_recursive_types(S)]
pub struct ExAHashMap<K, V, S>(ahash::AHashMap<K, V, S>);

/// The vertex indices held by a hash set.
pub uninterp spec fn vertex_set_contents(s: ahash::AHashSet<u32>) -> Set<u32>;

/// A hash map from vertex indices to counts.
pub type VertexCounts = ahash::AHashMap<u32, usize>;

/// The entries of a hash map from vertex indices to counts.
pub uninterp spec fn vertex_counts_contents(m: VertexCounts) -> Map<u32, usize>;

/// Calls `AHashSet::new`, an empty set.
#[verifier::external_body]
fn vertex_set_new() -> (r: ahash::AHashSet<u32>)
    ensures
        vertex_set_contents(r) == Set::<u32>::empty(),
{
    ahash::AHashSet::new()
}

/// Calls `HashSet::insert` through `AHashSet`, which adds the value to the set.
#[verifier::external_body]
fn vertex_set_insert(s: &mut ahash::AHashSet<u32>, value: u32)
    ensures
        vertex_set_contents(*final(s)) == vertex_set_contents(*old(s)).insert(value),
{
    s.insert(value);
}

/// Consumes the set with `AHashSet::into_iter`, which yields every value once in an
/// unspecified order, and collects the values. The order is left open.
#[verifier::external_body]
fn vertex_set_into_vec(s: ahash::AHashSet<u32>) -> (r: Vec<u32>)
    ensures
        r@.to_set() == vertex_set_contents(s),
        r@.no_duplicates(),
{
    s.into_iter().collect()
}

/// Calls `AHashMap::with_capacity`, an empty map with room for `capacity` entries.
#[verifier::external_body]
fn vertex_counts_with_capacity(capacity: usize) -> (r: VertexCounts)
    ensures
        vertex_counts_contents(r).dom() == Set::<u32>::empty(),
{
    ahash::AHashMap::with_capacity(capacity)
}

/// Calls `AHashMap::get`, the value stored for `key` if there is one.
#[verifier::external_body]
fn vertex_counts_get(m: &VertexCounts, key: u32) -> (r: Option<usize>)
    ensures
        vertex_counts_contents(*m).dom().contains(key) ==> r == Some(vertex_counts_contents(*m)[key]),
        !vertex_counts_contents(*m).dom().contains(key) ==> r is None,
{
    m.get(&key).copied()
}

/// Calls `AHashMap::insert`, which stores `value` for `key`, replacing any earlier value.
#[verifier::external_body]
fn vertex_counts_insert(m: &mut VertexCounts, key: u32, value: usize)
    ensures
        vertex_counts_contents(*final(m)) == vertex_counts_contents(*old(m)).insert(key, value),
{
    m.insert(key, value);
}

/// Collects the values of the map, visited with `HashMap::values` in an unspecified order:
/// one value for each key.
#[verifier::external_body]
fn vertex_counts_values(m: &VertexCounts) -> (r: Vec<usize>)
    ensures
        forall|i: int| 0 <= i < r@.len() ==> exists|key: u32| vertex_counts_contents(*m).dom().contains(key)
            && #[trigger] vertex_counts_contents(*m)[key] == #[trigger] r@[i],
        forall|key: u32| #[trigger] vertex_counts_contents(*m).dom().contains(key) ==> exists|i: int| 0 <= i < r@.len()
            && r@[i] == vertex_counts_contents(*m)[key],
{
    m.values().copied().collect()
}

/// The bone influence has a weight for vertex `v`.
pub open spec fn influences_vertex(influence: BoneInfluence, v: u32) -> bool {
    exists|k: int| 0 <= k < influence.vertex_weights@.len() && #[trigger] influence.vertex_weights@[k].vertex_index == v
}

/// The number of bone influences with a weight for vertex `v`.
pub open spec fn influence_count(influences: Seq<BoneInfluence>, v: u32) -> nat
    decreases influences.len(),
{
    if influences.len() == 0 {
        0
    } else {
        influence_count(influences.drop_last(), v) + if influences_vertex(influences.last(), v) { 1nat } else { 0nat }
    }
}

/// `r` is the largest number of bone influences that any vertex has, or zero.
pub open spec fn is_max_influence_count(influences: Seq<BoneInfluence>, r: nat) -> bool {
    &&& forall|v: u32| #[trigger] influence_count(influences, v) <= r
    &&& r > 0 ==> exists|v: u32| #[trigger] influence_count(influences, v) == r
}

proof fn lemma_influence_count_bound(influences: Seq<BoneInfluence>, v: u32)
    ensures
        influence_count(influences, v) <= influences.len(),
    decreases influences.len(),
{
    if influences.len() > 0 {
        lemma_influence_count_bound(influences.drop_last(), v);
    }
}

/// The vertices of one bone influence, each once.
fn influenced_vertices(influence: &BoneInfluence) -> (r: Vec<u32>)
    ensures
        r@.no_duplicates(),
        forall|v: u32| r@.contains(v) <==> influences_vertex(*influence, v),
{
    let mut set = vertex_set_new();
    let mut k: usize = 0;
    while k < influence.vertex_weights.len()
        invariant
            k <= influence.vertex_weights@.len(),
            forall|v: u32| vertex_set_contents(set).contains(v) <==>
                exists|m: int| 0 <= m < k && #[trigger] influence.vertex_weights@[m].vertex_index == v,
        decreases influence.vertex_weights@.len() - k,
    {
        let ghost before = vertex_set_contents(set);
        vertex_set_insert(&mut set, influence.vertex_weights[k].vertex_index);
        proof {
            assert forall|v: u32| vertex_set_contents(set).contains(v) <==>
                exists|m: int| 0 <= m < k + 1 && #[trigger] influence.vertex_weights@[m].vertex_index == v by {
                if vertex_set_contents(set).contains(v) && v != influence.vertex_weights@[k as int].vertex_index {
                    assert(before.contains(v));
                }
                if v == influence.vertex_weights@[k as int].vertex_index {
                    assert(influence.vertex_weights@[k as int].vertex_index == v);
                }
            }
        }
        k = k + 1;
    }
    let ghost contents = vertex_set_contents(set);
    let r = vertex_set_into_vec(set);
    proof {
        assert forall|v: u32| r@.contains(v) <==> influences_vertex(*influence, v) by {
            assert(r@.to_set().contains(v) == r@.contains(v));
            assert(contents.contains(v) <==> influences_vertex(*influence, v));
        }
    }
    r
}

/// The largest number of bone influences that any vertex has, or zero when no vertex has a
/// weight. A vertex counts once per bone however many weights the bone gives it.
/// `vertex_index_count` only sizes the working storage.
pub fn calculate_max_influences(influences: &[BoneInfluence], vertex_index_count: usize) -> (r: usize)
    ensures
        is_max_influence_count(influences@, r as nat),
{
    let mut counts = vertex_counts_with_capacity(vertex_index_count);
    assert(influences@.len() == influences.len());
    let mut i: usize = 0;
    while i < influences.len()
        invariant
            i <= influences@.len(),
            influences@.len() <= usize::MAX,
            forall|v: u32| #[trigger] vertex_counts_contents(counts).dom().contains(v) <==> influence_count(influences@.take(i as int), v) > 0,
            forall|v: u32| #[trigger] vertex_counts_contents(counts).dom().contains(v) ==>
                vertex_counts_contents(counts)[v] == influence_count(influences@.take(i as int), v),
        decreases influences@.len() - i,
    {
        let vertices = influenced_vertices(&influences[i]);
        let ghost prev = vertex_counts_contents(counts);
        let ghost before = influences@.take(i as int);
        let mut j: usize = 0;
        while j < vertices.len()
            invariant
                i < influences@.len(),
                influences@.len() <= usize::MAX,
                j <= vertices@.len(),
                vertices@.no_duplicates(),
                before == influences@.take(i as int),
                forall|v: u32| #[trigger] prev.dom().contains(v) <==> influence_count(before, v) > 0,
                forall|v: u32| #[trigger] prev.dom().contains(v) ==> prev[v] == influence_count(before, v),
                forall|v: u32| #[trigger] vertex_counts_contents(counts).dom().contains(v) <==>
                    (influence_count(before, v) > 0 || vertices@.take(j as int).contains(v)),
                forall|v: u32| #[trigger] vertex_counts_contents(counts).dom().contains(v) ==>
                    vertex_counts_contents(counts)[v] == influence_count(before, v)
                        + if vertices@.take(j as int).contains(v) { 1nat } else { 0nat },
            decreases vertices@.len() - j,
        {
            let v = vertices[j];
            proof {
                lemma_influence_count_bound(before, v);
                if vertices@.take(j as int).contains(v) {
                    let m = choose|m: int| 0 <= m < j && vertices@.take(j as int)[m] == v;
                    assert(vertices@[m] == vertices@[j as int]);
                }
                assert(!vertices@.take(j as int).contains(v));
            }
            let c = match vertex_counts_get(&counts, v) {
                Some(c) => c,
                None => 0,
            };
            proof {
                assert(c == influence_count(before, v));
            }
            let ghost mid = vertex_counts_contents(counts);
            vertex_counts_insert(&mut counts, v, c + 1);
            proof {
                assert(vertices@.take(j + 1) =~= vertices@.take(j as int).push(v));
                assert(vertices@.take(j + 1).contains(v)) by {
                    assert(vertices@.take(j + 1)[j as int] == v);
                }
                assert forall|u: u32| #[trigger] vertex_counts_contents(counts).dom().contains(u) implies
                    vertex_counts_contents(counts)[u] == influence_count(before, u)
                        + if vertices@.take(j + 1).contains(u) { 1nat } else { 0nat } by {
                    if u != v {
                        assert(mid.dom().contains(u));
                        assert(vertices@.take(j + 1).contains(u) == vertices@.take(j as int).contains(u));
                    }
                }
                assert forall|u: u32| #[trigger] vertex_counts_contents(counts).dom().contains(u) <==>
                    (influence_count(before, u) > 0 || vertices@.take(j + 1).contains(u)) by {
                    if u != v {
                        assert(vertices@.take(j + 1).contains(u) == vertices@.take(j as int).contains(u));
                    }
                }
            }
            j = j + 1;
        }
        proof {
            assert(vertices@.take(vertices@.len() as int) =~= vertices@);
            let next = influences@.take(i + 1);
            assert(next.drop_last() =~= before);
            assert(next.last() == influences@[i as int]);
            assert forall|v: u32| influence_count(next, v) == influence_count(before, v)
                + if vertices@.contains(v) { 1nat } else { 0nat } by {
                assert(vertices@.contains(v) <==> influences_vertex(influences@[i as int], v));
            }
        }
        i = i + 1;
    }
    proof {
        assert(influences@.take(influences@.len() as int) =~= influences@);
    }
    let values = vertex_counts_values(&counts);
    let mut best: usize = 0;
    let mut k: usize = 0;
    while k < values.len()
        invariant
            k <= values@.len(),
            forall|m: int| 0 <= m < k ==> values@[m] <= best,
            best > 0 ==> exists|m: int| 0 <= m < k && values@[m] == best,
        decreases values@.len() - k,
    {
        if values[k] > best {
            best = values[k];
        }
        k = k + 1;
    }
    proof {
        let contents = vertex_counts_contents(counts);
        assert forall|v: u32| #[trigger] influence_count(influences@, v) <= best by {
            if influence_count(influences@, v) > 0 {
                assert(contents.dom().contains(v));
                let m = choose|m: int| 0 <= m < values@.len() && values@[m] == contents[v];
                assert(values@[m] <= best);
            }
        }
        if best > 0 {
            let m = choose|m: int| 0 <= m < values@.len() && values@[m] == best;
            let key = choose|key: u32| #[trigger] contents.dom().contains(key) && contents[key] == values@[m];
            assert(influence_count(influences@, key) == best);
        }
    }
    best
}

} // verus!
