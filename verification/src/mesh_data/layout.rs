//! Where the mesh objects' data goes in the shared buffers of a mesh file.
//!
//! Each mesh object appends its vertex data to the four vertex buffers and its vertex indices
//! to the index buffer. An object records the buffer offsets at which its data starts.
use vstd::prelude::*;
use crate::mesh_data::{
    MeshObjectData, VertexIndices, DrawElementType, indices_fit_u16, is_max_index, u16_seq_le_bytes,
    u32_seq_le_bytes, vertex_index_bytes, convert_indices, draw_element_type, write_vertex_indices,
    calculate_max_influences, is_max_influence_count, BoneInfluence, VertexWeight, create_vertex_weights_v10,
    vertex_weight_bytes_v10,
};
use crate::mesh_data::error::Error;

verus! {

/// The data associated with a mesh file.
/// The supported versions are 1.8, 1.9 and 1.10.
#[derive(Debug, Clone)]
pub struct MeshData {
    pub major_version: u16,
    pub minor_version: u16,
    pub objects: Vec<MeshObjectData>,
}

/// The buffer layout of one mesh object.
#[derive(Debug, Clone, Copy, PartialEq, Eq)]
pub struct MeshObjectLayout {
    pub vertex_count: usize,
    pub vertex_index_count: usize,
    /// The offset of the object's data in each of the four vertex buffers.
    pub vertex_buffer_offsets: [u64; 4],
    /// The stride of the object's data in each of the four vertex buffers.
    pub strides: [u32; 4],
    /// The offset of the object's indices in the index buffer.
    pub index_buffer_offset: usize,
    pub draw_element_type: DrawElementType,
    /// The object has bone influences.
    pub use_vertex_skinning: bool,
    /// The largest number of bones that influence one vertex of the object.
    pub max_influences: usize,
}

/// The buffer layout of all mesh objects.
#[derive(Debug, Clone)]
pub struct MeshVertexLayout {
    pub objects: Vec<MeshObjectLayout>,
    /// The number of bytes in each of the four vertex buffers.
    pub vertex_buffer_sizes: [u64; 4],
    /// The vertex indices of all objects, each object's with the storage type it needs.
    pub index_buffer: Vec<u8>,
}

/// The object's vertex indices form triangles, its attributes agree on a vertex count, and
/// every index refers to a vertex.
pub open spec fn object_indices_valid(o: MeshObjectData) -> bool {
    &&& o.vertex_indices@.len() % 3 == 0
    &&& o.attribute_lengths_equal()
    &&& forall|k: int| 0 <= k < o.vertex_indices@.len() ==> #[trigger] o.vertex_indices@[k] < o.spec_vertex_count()
}

/// `e` is the error that checking the object's vertex indices gives.
pub open spec fn object_index_error(o: MeshObjectData, e: Error) -> bool {
    if o.vertex_indices@.len() % 3 != 0 {
        e matches Error::NonTriangulatedFaces { vertex_index_count } && vertex_index_count == o.vertex_indices@.len()
    } else if !o.attribute_lengths_equal() {
        e matches Error::AttributeDataLengthMismatch
    } else {
        e matches Error::VertexIndexOutOfRange { vertex_index, vertex_count }
            && vertex_count == o.spec_vertex_count()
            && is_max_index(o.vertex_indices@, vertex_index as int)
    }
}

/// The index buffer bytes of one object: `u16` values when every index fits, else `u32`.
pub open spec fn object_index_bytes(indices: Seq<u32>) -> Seq<u8> {
    if indices_fit_u16(indices) {
        u16_seq_le_bytes(indices.map_values(|i: u32| i as u16))
    } else {
        u32_seq_le_bytes(indices)
    }
}

/// The index buffer of the first `n` objects.
pub open spec fn index_buffer_bytes(objects: Seq<MeshObjectData>, n: nat) -> Seq<u8>
    decreases n,
{
    if n == 0 {
        Seq::<u8>::empty()
    } else {
        index_buffer_bytes(objects, (n - 1) as nat) + object_index_bytes(objects[n - 1].vertex_indices@)
    }
}

/// The bytes that the first `n` objects take in vertex buffer `k`: each object's vertex count
/// times its stride in that buffer.
pub open spec fn vertex_bytes(objects: Seq<MeshObjectData>, strides: Seq<[u32; 4]>, n: nat, k: int) -> int
    decreases n,
{
    if n == 0 {
        0
    } else {
        vertex_bytes(objects, strides, (n - 1) as nat, k) + strides[n - 1][k] * objects[n - 1].spec_vertex_count()
    }
}

/// `l` is the layout of object `i`. Buffer 2 is written only when `use_buffer2` holds; its
/// offsets advance by the object's stride either way, and without it the stride is 0.
pub open spec fn object_layout_matches(
    l: MeshObjectLayout,
    objects: Seq<MeshObjectData>,
    strides: Seq<[u32; 4]>,
    use_buffer2: bool,
    i: int,
) -> bool {
    let o = objects[i];
    &&& l.vertex_count == o.spec_vertex_count()
    &&& l.vertex_index_count == o.vertex_indices@.len()
    &&& forall|k: int| 0 <= k < 4 ==> #[trigger] l.vertex_buffer_offsets@[k] == vertex_bytes(objects, strides, i as nat, k)
    &&& l.strides@[0] == strides[i][0]
    &&& l.strides@[1] == strides[i][1]
    &&& l.strides@[2] == (if use_buffer2 { strides[i][2] } else { 0 })
    &&& l.strides@[3] == strides[i][3]
    &&& l.index_buffer_offset == index_buffer_bytes(objects, i as nat).len()
    &&& l.draw_element_type == (if indices_fit_u16(o.vertex_indices@) {
        DrawElementType::UnsignedShort
    } else {
        DrawElementType::UnsignedInt
    })
    &&& l.use_vertex_skinning == (o.bone_influences@.len() > 0)
    &&& is_max_influence_count(o.bone_influences@, l.max_influences as nat)
}

/// `layout` places the objects' data: each object's layout as [object_layout_matches] gives
/// it, buffer sizes that cover every object, and the index buffer of all objects.
pub open spec fn vertex_layout_matches(
    layout: MeshVertexLayout,
    objects: Seq<MeshObjectData>,
    strides: Seq<[u32; 4]>,
    use_buffer2: bool,
) -> bool {
    &&& layout.objects@.len() == objects.len()
    &&& forall|i: int| 0 <= i < objects.len() ==> object_layout_matches(
        #[trigger] layout.objects@[i],
        objects,
        strides,
        use_buffer2,
        i,
    )
    &&& layout.vertex_buffer_sizes@[0] == vertex_bytes(objects, strides, objects.len(), 0)
    &&& layout.vertex_buffer_sizes@[1] == vertex_bytes(objects, strides, objects.len(), 1)
    &&& layout.vertex_buffer_sizes@[2] == (if use_buffer2 { vertex_bytes(objects, strides, objects.len(), 2) } else { 0 })
    &&& layout.vertex_buffer_sizes@[3] == vertex_bytes(objects, strides, objects.len(), 3)
    &&& layout.index_buffer@ == index_buffer_bytes(objects, objects.len())
}

/// Object `i` is the first whose vertex indices are not valid, and `e` is its error.
pub open spec fn first_index_error(objects: Seq<MeshObjectData>, e: Error) -> bool {
    exists|i: int|
        0 <= i < objects.len() && (forall|j: int| 0 <= j < i ==> #[trigger] object_indices_valid(objects[j]))
            && !object_indices_valid(#[trigger] objects[i]) && object_index_error(objects[i], e)
}

/// Every object's vertex indices are valid.
pub open spec fn all_indices_valid(objects: Seq<MeshObjectData>) -> bool {
    forall|i: int| 0 <= i < objects.len() ==> #[trigger] object_indices_valid(objects[i])
}

proof fn lemma_vertex_bytes_monotone(objects: Seq<MeshObjectData>, strides: Seq<[u32; 4]>, i: nat, n: nat, k: int)
    requires
        i <= n,
    ensures
        0 <= vertex_bytes(objects, strides, i, k) <= vertex_bytes(objects, strides, n, k),
    decreases n,
{
    if n > 0 {
        let s = strides[n - 1][k] as int;
        let c = objects[n - 1].spec_vertex_count() as int;
        assert(s * c >= 0) by (nonlinear_arith)
            requires
                s >= 0,
                c >= 0,
        ;
        if i < n {
            lemma_vertex_bytes_monotone(objects, strides, i, (n - 1) as nat, k);
        } else {
            lemma_vertex_bytes_monotone(objects, strides, (n - 1) as nat, (n - 1) as nat, k);
        }
    }
}

proof fn lemma_object_index_bytes(indices: Seq<u32>, converted: VertexIndices)
    requires
        indices_fit_u16(indices) ==> (converted matches VertexIndices::UnsignedShort(v)
            && v@.len() == indices.len()
            && forall|k: int| 0 <= k < indices.len() ==> v@[k] == #[trigger] indices[k]),
        !indices_fit_u16(indices) ==> (converted matches VertexIndices::UnsignedInt(v) && v@ == indices),
    ensures
        vertex_index_bytes(converted) == object_index_bytes(indices),
{
    if indices_fit_u16(indices) {
        if let VertexIndices::UnsignedShort(v) = converted {
            assert(v@ =~= indices.map_values(|i: u32| i as u16));
        }
    }
}

/// The buffer layout of the mesh objects, given each object's strides in the four vertex
/// buffers. Objects are laid out in order; the first object whose vertex indices are not
/// valid (see [object_indices_valid]) gives the error.
pub fn create_mesh_objects(objects: &Vec<MeshObjectData>, strides: &Vec<[u32; 4]>, use_buffer2: bool) -> (r: Result<
    MeshVertexLayout,
    Error,
>)
    requires
        strides@.len() == objects@.len(),
        forall|k: int| 0 <= k < 4 ==> #[trigger] vertex_bytes(objects@, strides@, objects@.len(), k) <= u64::MAX,
    ensures
        all_indices_valid(objects@) ==> (r matches Ok(layout) && vertex_layout_matches(layout, objects@, strides@, use_buffer2)),
        r matches Err(e) ==> first_index_error(objects@, e),
        !all_indices_valid(objects@) ==> r is Err,
{
    let mut layouts: Vec<MeshObjectLayout> = Vec::new();
    let mut index_buffer: Vec<u8> = Vec::new();
    let mut size0: u64 = 0;
    let mut size1: u64 = 0;
    let mut size2: u64 = 0;
    let mut size3: u64 = 0;
    let n = objects.len();
    let mut i: usize = 0;
    while i < n
        invariant
            n == objects@.len(),
            strides@.len() == n,
            i <= n,
            forall|k: int| 0 <= k < 4 ==> #[trigger] vertex_bytes(objects@, strides@, n as nat, k) <= u64::MAX,
            forall|j: int| 0 <= j < i ==> #[trigger] object_indices_valid(objects@[j]),
            layouts@.len() == i,
            forall|j: int| 0 <= j < i ==> object_layout_matches(#[trigger] layouts@[j], objects@, strides@, use_buffer2, j),
            size0 == vertex_bytes(objects@, strides@, i as nat, 0),
            size1 == vertex_bytes(objects@, strides@, i as nat, 1),
            size2 == vertex_bytes(objects@, strides@, i as nat, 2),
            size3 == vertex_bytes(objects@, strides@, i as nat, 3),
            index_buffer@ == index_buffer_bytes(objects@, i as nat),
        decreases n - i,
    {
        let o = &objects[i];
        let vertex_count = match o.check_vertex_indices() {
            Ok(c) => c,
            Err(e) => {
                proof {
                    assert(!object_indices_valid(objects@[i as int]));
                    assert(object_index_error(objects@[i as int], e));
                }
                return Err(e);
            },
        };
        proof {
            assert(object_indices_valid(objects@[i as int]));
        }
        let indices = convert_indices(o.vertex_indices.as_slice());
        let element_type = draw_element_type(&indices);
        let s = strides[i];
        let index_offset = index_buffer.len();
        write_vertex_indices(&indices, &mut index_buffer);
        let max_influences = calculate_max_influences(o.bone_influences.as_slice(), o.vertex_indices.len());
        proof {
            lemma_object_index_bytes(o.vertex_indices@, indices);
            assert(index_buffer@ =~= index_buffer_bytes(objects@, (i + 1) as nat));
            assert forall|k: int| 0 <= k < 4 implies #[trigger] vertex_bytes(objects@, strides@, (i + 1) as nat, k) <= u64::MAX by {
                lemma_vertex_bytes_monotone(objects@, strides@, (i + 1) as nat, n as nat, k);
            }
            assert(vertex_bytes(objects@, strides@, (i + 1) as nat, 0) <= u64::MAX);
            assert(vertex_bytes(objects@, strides@, (i + 1) as nat, 1) <= u64::MAX);
            assert(vertex_bytes(objects@, strides@, (i + 1) as nat, 2) <= u64::MAX);
            assert(vertex_bytes(objects@, strides@, (i + 1) as nat, 3) <= u64::MAX);
            lemma_vertex_bytes_monotone(objects@, strides@, i as nat, i as nat, 0);
            lemma_vertex_bytes_monotone(objects@, strides@, i as nat, i as nat, 1);
            lemma_vertex_bytes_monotone(objects@, strides@, i as nat, i as nat, 2);
            lemma_vertex_bytes_monotone(objects@, strides@, i as nat, i as nat, 3);
        }
        let c: u64 = vertex_count as u64;
        let offsets: [u64; 4] = [size0, size1, size2, size3];
        proof {
            assert(s[0] as u64 * c <= u64::MAX - size0);
            assert(s[1] as u64 * c <= u64::MAX - size1);
            assert(s[2] as u64 * c <= u64::MAX - size2);
            assert(s[3] as u64 * c <= u64::MAX - size3);
        }
        size0 = size0 + s[0] as u64 * c;
        size1 = size1 + s[1] as u64 * c;
        size2 = size2 + s[2] as u64 * c;
        size3 = size3 + s[3] as u64 * c;
        let layout = MeshObjectLayout {
            vertex_count,
            vertex_index_count: o.vertex_indices.len(),
            vertex_buffer_offsets: offsets,
            strides: [s[0], s[1], if use_buffer2 { s[2] } else { 0 }, s[3]],
            index_buffer_offset: index_offset,
            draw_element_type: element_type,
            use_vertex_skinning: o.bone_influences.len() > 0,
            max_influences,
        };
        layouts.push(layout);
        proof {
            assert forall|k: int| 0 <= k < 4 implies #[trigger] layout.vertex_buffer_offsets@[k] == vertex_bytes(
                objects@,
                strides@,
                i as nat,
                k,
            ) by {
                if k == 0 {} else if k == 1 {} else if k == 2 {} else {}
            }
            assert(object_layout_matches(layouts@[i as int], objects@, strides@, use_buffer2, i as int));
        }
        i = i + 1;
    }
    let sizes: [u64; 4] = [size0, size1, if use_buffer2 { size2 } else { 0 }, size3];
    Ok(MeshVertexLayout { objects: layouts, vertex_buffer_sizes: sizes, index_buffer })
}

/// The mesh versions that can be written: 1.8, 1.9 and 1.10.
pub open spec fn mesh_version_supported(major_version: u16, minor_version: u16) -> bool {
    major_version == 1 && (minor_version == 8 || minor_version == 9 || minor_version == 10)
}

impl MeshData {
    /// The buffer layout of the mesh objects for the data's version, given each object's
    /// strides in the four vertex buffers. Versions 1.8 and 1.9 write buffer 2; version 1.10
    /// reserves offsets for it but writes no data to it.
    pub fn create_mesh_layout(&self, strides: &Vec<[u32; 4]>) -> (r: Result<MeshVertexLayout, Error>)
        requires
            strides@.len() == self.objects@.len(),
            forall|k: int| 0 <= k < 4 ==> #[trigger] vertex_bytes(self.objects@, strides@, self.objects@.len(), k) <= u64::MAX,
        ensures
            !mesh_version_supported(self.major_version, self.minor_version) ==> (r matches Err(
                Error::UnsupportedVersion { major_version, minor_version },
            ) && major_version == self.major_version && minor_version == self.minor_version),
            mesh_version_supported(self.major_version, self.minor_version) ==> {
                &&& all_indices_valid(self.objects@) ==> (r matches Ok(layout) && vertex_layout_matches(
                    layout,
                    self.objects@,
                    strides@,
                    self.minor_version != 10,
                ))
                &&& r matches Err(e) ==> first_index_error(self.objects@, e)
                &&& !all_indices_valid(self.objects@) ==> r is Err
            },
    {
        if self.major_version == 1 && (self.minor_version == 8 || self.minor_version == 9 || self.minor_version == 10) {
            create_mesh_objects(&self.objects, strides, self.minor_version != 10)
        } else {
            Err(Error::UnsupportedVersion { major_version: self.major_version, minor_version: self.minor_version })
        }
    }
}

/// Offsets of consecutive objects: each object's data starts where the previous object's
/// data ends, in every vertex buffer and in the index buffer.
pub proof fn lemma_object_offsets_consecutive(
    objects: Seq<MeshObjectData>,
    strides: Seq<[u32; 4]>,
    use_buffer2: bool,
    a: MeshObjectLayout,
    b: MeshObjectLayout,
    i: int,
)
    requires
        0 <= i,
        i + 1 < objects.len(),
        object_layout_matches(a, objects, strides, use_buffer2, i),
        object_layout_matches(b, objects, strides, use_buffer2, i + 1),
    ensures
        forall|k: int| 0 <= k < 4 ==> #[trigger] b.vertex_buffer_offsets@[k] == a.vertex_buffer_offsets@[k]
            + strides[i][k] * a.vertex_count,
        b.index_buffer_offset == a.index_buffer_offset + object_index_bytes(objects[i].vertex_indices@).len(),
{
    assert forall|k: int| 0 <= k < 4 implies #[trigger] b.vertex_buffer_offsets@[k] == a.vertex_buffer_offsets@[k]
        + strides[i][k] * a.vertex_count by {
        assert(a.vertex_buffer_offsets@[k] == vertex_bytes(objects, strides, i as nat, k));
        assert(b.vertex_buffer_offsets@[k] == vertex_bytes(objects, strides, (i + 1) as nat, k));
    }
    assert(index_buffer_bytes(objects, (i + 1) as nat) == index_buffer_bytes(objects, i as nat)
        + object_index_bytes(objects[i].vertex_indices@));
}

/// The skin weights of one bone: bytes for version 1.10, a list of weights for 1.8 and 1.9.
#[derive(Debug, Clone)]
pub enum SkinWeights {
    V10(Vec<u8>),
    V8(Vec<VertexWeight>),
}

/// The skin weights of one bone of a mesh object.
#[derive(Debug, Clone)]
pub struct BoneBuffer {
    pub bone_name: String,
    pub data: SkinWeights,
}

/// The skinning data of one mesh object.
#[derive(Debug, Clone)]
pub struct RiggingGroup {
    pub mesh_object_name: String,
    pub mesh_object_subindex: u64,
    /// The largest number of bones that influence one vertex, as the file's byte stores it.
    pub max_influences: u8,
    pub buffers: Vec<BoneBuffer>,
}

/// Every weight's vertex index fits in a `u16`.
pub open spec fn weights_fit_u16(weights: Seq<VertexWeight>) -> bool {
    forall|k: int| 0 <= k < weights.len() ==> #[trigger] weights[k].vertex_index <= u16::MAX
}

/// Every vertex index of the objects' skin weights fits in a `u16`.
pub open spec fn skin_weights_fit_u16(objects: Seq<MeshObjectData>) -> bool {
    forall|i: int, j: int| 0 <= i < objects.len() && 0 <= j < objects[i].bone_influences@.len()
        ==> weights_fit_u16(#[trigger] objects[i].bone_influences@[j].vertex_weights@)
}

/// `b` holds the skin weights of the bone influence.
pub open spec fn bone_buffer_matches(b: BoneBuffer, influence: BoneInfluence, v10: bool) -> bool {
    &&& b.bone_name == influence.bone_name
    &&& if v10 {
        b.data matches SkinWeights::V10(bytes) && bytes@ == vertex_weight_bytes_v10(influence.vertex_weights@)
    } else {
        b.data matches SkinWeights::V8(weights) && weights@ == influence.vertex_weights@
    }
}

/// `g` holds the skinning data of the object.
pub open spec fn rigging_group_matches(g: RiggingGroup, o: MeshObjectData, v10: bool) -> bool {
    &&& g.mesh_object_name == o.name
    &&& g.mesh_object_subindex == o.subindex
    &&& exists|m: nat| is_max_influence_count(o.bone_influences@, m) && g.max_influences == m as u8
    &&& g.buffers@.len() == o.bone_influences@.len()
    &&& forall|j: int| 0 <= j < g.buffers@.len() ==> bone_buffer_matches(
        #[trigger] g.buffers@[j],
        o.bone_influences@[j],
        v10,
    )
}

/// The skin weights of the bone influences of one object.
fn create_bone_buffers(influences: &Vec<BoneInfluence>, v10: bool) -> (r: Result<Vec<BoneBuffer>, Error>)
    ensures
        (!v10 || forall|j: int| 0 <= j < influences@.len() ==> weights_fit_u16(#[trigger] influences@[j].vertex_weights@))
            ==> (r matches Ok(buffers) && buffers@.len() == influences@.len()
            && forall|j: int| 0 <= j < influences@.len() ==> bone_buffer_matches(
                #[trigger] buffers@[j],
                influences@[j],
                v10,
            )),
        r matches Err(e) ==> v10 && (e matches Error::SkinWeightVertexIndexExceedsLimit {
            vertex_index,
            limit,
            major_version,
            minor_version,
        } && limit == u16::MAX && major_version == 1 && minor_version == 10 && exists|j: int, k: int|
            0 <= j < influences@.len() && 0 <= k < influences@[j].vertex_weights@.len()
                && #[trigger] influences@[j].vertex_weights@[k].vertex_index == vertex_index
                && vertex_index > u16::MAX),
        r is Err ==> !(forall|j: int| 0 <= j < influences@.len() ==> weights_fit_u16(#[trigger] influences@[j].vertex_weights@)),
        r is Ok && v10 ==> forall|j: int| 0 <= j < influences@.len() ==> weights_fit_u16(#[trigger] influences@[j].vertex_weights@),
{
    let mut buffers: Vec<BoneBuffer> = Vec::new();
    let mut j: usize = 0;
    while j < influences.len()
        invariant
            j <= influences@.len(),
            buffers@.len() == j,
            forall|m: int| 0 <= m < j ==> bone_buffer_matches(#[trigger] buffers@[m], influences@[m], v10),
            v10 ==> forall|m: int| 0 <= m < j ==> weights_fit_u16(#[trigger] influences@[m].vertex_weights@),
        decreases influences@.len() - j,
    {
        let influence = &influences[j];
        let data = if v10 {
            match create_vertex_weights_v10(influence.vertex_weights.as_slice()) {
                Ok(bytes) => SkinWeights::V10(bytes),
                Err(e) => {
                    proof {
                        let k = choose|k: int| 0 <= k < influences@[j as int].vertex_weights@.len()
                            && influences@[j as int].vertex_weights@[k].vertex_index > u16::MAX
                            && #[trigger] influences@[j as int].vertex_weights@[k].vertex_index
                                == influences@[j as int].vertex_weights@[k].vertex_index;
                        assert(!weights_fit_u16(influences@[j as int].vertex_weights@));
                    }
                    return Err(e);
                },
            }
        } else {
            SkinWeights::V8(influence.vertex_weights.clone())
        };
        buffers.push(BoneBuffer { bone_name: influence.bone_name.clone(), data });
        j = j + 1;
    }
    Ok(buffers)
}

/// The skinning data of each mesh object, in the order of the objects. Version 1.10 stores
/// skin weight vertex indices as `u16` and fails with an index that does not fit.
pub fn rigging_groups(objects: &Vec<MeshObjectData>, v10: bool) -> (r: Result<Vec<RiggingGroup>, Error>)
    ensures
        (!v10 || skin_weights_fit_u16(objects@)) ==> (r matches Ok(groups) && groups@.len() == objects@.len()
            && forall|i: int| 0 <= i < objects@.len() ==> rigging_group_matches(
                #[trigger] groups@[i],
                objects@[i],
                v10,
            )),
        r matches Err(e) ==> v10 && (e matches Error::SkinWeightVertexIndexExceedsLimit {
            vertex_index,
            limit,
            major_version,
            minor_version,
        } && limit == u16::MAX && major_version == 1 && minor_version == 10 && exists|i: int, j: int, k: int|
            0 <= i < objects@.len() && 0 <= j < objects@[i].bone_influences@.len() && 0 <= k
                < objects@[i].bone_influences@[j].vertex_weights@.len()
                && #[trigger] objects@[i].bone_influences@[j].vertex_weights@[k].vertex_index == vertex_index
                && vertex_index > u16::MAX),
        r is Err ==> !skin_weights_fit_u16(objects@),
        r is Ok && v10 ==> skin_weights_fit_u16(objects@),
{
    let mut groups: Vec<RiggingGroup> = Vec::new();
    let mut i: usize = 0;
    while i < objects.len()
        invariant
            i <= objects@.len(),
            groups@.len() == i,
            forall|m: int| 0 <= m < i ==> rigging_group_matches(#[trigger] groups@[m], objects@[m], v10),
            v10 ==> forall|m: int, j: int| 0 <= m < i && 0 <= j < objects@[m].bone_influences@.len()
                ==> weights_fit_u16(#[trigger] objects@[m].bone_influences@[j].vertex_weights@),
        decreases objects@.len() - i,
    {
        let o = &objects[i];
        let max_influences = calculate_max_influences(o.bone_influences.as_slice(), o.vertex_indices.len());
        let buffers = match create_bone_buffers(&o.bone_influences, v10) {
            Ok(b) => b,
            Err(e) => {
                proof {
                    if let Error::SkinWeightVertexIndexExceedsLimit { vertex_index, .. } = e {
                        let (j, k) = choose|j: int, k: int|
                            0 <= j < o.bone_influences@.len() && 0 <= k < o.bone_influences@[j].vertex_weights@.len()
                                && #[trigger] o.bone_influences@[j].vertex_weights@[k].vertex_index == vertex_index
                                && vertex_index > u16::MAX;
                        assert(objects@[i as int].bone_influences@[j].vertex_weights@[k].vertex_index == vertex_index);
                    }
                    let j = choose|j: int| 0 <= j < o.bone_influences@.len()
                        && !weights_fit_u16(#[trigger] o.bone_influences@[j].vertex_weights@);
                    assert(!weights_fit_u16(objects@[i as int].bone_influences@[j].vertex_weights@));
                }
                return Err(e);
            },
        };
        groups.push(RiggingGroup {
            mesh_object_name: o.name.clone(),
            mesh_object_subindex: o.subindex,
            max_influences: #[verifier::truncate] (max_influences as u8),
            buffers,
        });
        proof {
            assert(is_max_influence_count(o.bone_influences@, max_influences as nat)
                && groups@[i as int].max_influences == (max_influences as nat) as u8);
            assert(rigging_group_matches(groups@[i as int], objects@[i as int], v10));
        }
        i = i + 1;
    }
    Ok(groups)
}

/// The buffers of a mesh file: where each object's data goes, and each object's skinning data.
#[derive(Debug, Clone)]
pub struct MeshBuffers {
    pub layout: MeshVertexLayout,
    /// The skinning data of each object, in the order of the objects.
    pub rigging_buffers: Vec<RiggingGroup>,
}

impl MeshData {
    /// The buffers of a mesh file for the data's version, given each object's strides in the
    /// four vertex buffers: first the placement of the objects' data, then their skin weights.
    pub fn create_mesh(&self, strides: &Vec<[u32; 4]>) -> (r: Result<MeshBuffers, Error>)
        requires
            strides@.len() == self.objects@.len(),
            forall|k: int| 0 <= k < 4 ==> #[trigger] vertex_bytes(self.objects@, strides@, self.objects@.len(), k) <= u64::MAX,
        ensures
            !mesh_version_supported(self.major_version, self.minor_version) ==> (r matches Err(
                Error::UnsupportedVersion { major_version, minor_version },
            ) && major_version == self.major_version && minor_version == self.minor_version),
            mesh_version_supported(self.major_version, self.minor_version) ==> {
                let v10 = self.minor_version == 10;
                &&& all_indices_valid(self.objects@) && (!v10 || skin_weights_fit_u16(self.objects@)) ==> (r matches Ok(
                    m,
                ) && vertex_layout_matches(m.layout, self.objects@, strides@, !v10)
                    && rigging_buffers_match(m.rigging_buffers@, self.objects@, v10))
                &&& !all_indices_valid(self.objects@) ==> (r matches Err(e) && first_index_error(self.objects@, e))
                &&& all_indices_valid(self.objects@) && v10 && !skin_weights_fit_u16(self.objects@) ==> (r matches Err(
                    e,
                ) && e matches Error::SkinWeightVertexIndexExceedsLimit {
                    vertex_index,
                    limit,
                    major_version,
                    minor_version,
                } && limit == u16::MAX && major_version == 1 && minor_version == 10 && exists|i: int, j: int, k: int|
                    0 <= i < self.objects@.len() && 0 <= j < self.objects@[i].bone_influences@.len() && 0 <= k
                        < self.objects@[i].bone_influences@[j].vertex_weights@.len()
                        && #[trigger] self.objects@[i].bone_influences@[j].vertex_weights@[k].vertex_index
                        == vertex_index && vertex_index > u16::MAX)
            },
    {
        let layout = match self.create_mesh_layout(strides) {
            Ok(l) => l,
            Err(e) => return Err(e),
        };
        let rigging_buffers = match create_rigging_buffers(&self.objects, self.minor_version == 10) {
            Ok(g) => g,
            Err(e) => return Err(e),
        };
        Ok(MeshBuffers { layout, rigging_buffers })
    }
}

/// Lexicographic order of byte strings, the order in which `str` values compare.
pub open spec fn bytes_le(a: Seq<u8>, b: Seq<u8>) -> bool
    decreases a.len(),
{
    if a.len() == 0 {
        true
    } else if b.len() == 0 {
        false
    } else if a[0] != b[0] {
        a[0] < b[0]
    } else {
        bytes_le(a.drop_first(), b.drop_first())
    }
}

/// The UTF-8 bytes of a mesh object name.
pub open spec fn name_bytes(name: String) -> Seq<u8> {
    vstd::utf8::encode_utf8(name@)
}

/// Rigging groups are ordered by mesh object name, then by subindex.
pub open spec fn group_le(a: RiggingGroup, b: RiggingGroup) -> bool {
    let x = name_bytes(a.mesh_object_name);
    let y = name_bytes(b.mesh_object_name);
    if x == y {
        a.mesh_object_subindex <= b.mesh_object_subindex
    } else {
        bytes_le(x, y)
    }
}

/// The groups are in ascending order of name and subindex.
pub open spec fn groups_sorted(groups: Seq<RiggingGroup>) -> bool {
    forall|i: int, j: int| 0 <= i < j < groups.len() ==> group_le(#[trigger] groups[i], #[trigger] groups[j])
}

proof fn lemma_bytes_le_total(a: Seq<u8>, b: Seq<u8>)
    ensures
        bytes_le(a, b) || bytes_le(b, a),
        bytes_le(a, b) && bytes_le(b, a) ==> a == b,
    decreases a.len(),
{
    if a.len() > 0 && b.len() > 0 && a[0] == b[0] {
        lemma_bytes_le_total(a.drop_first(), b.drop_first());
        if a.drop_first() == b.drop_first() {
            assert(a =~= seq![a[0]] + a.drop_first());
            assert(b =~= seq![b[0]] + b.drop_first());
        }
    }
    if a.len() == 0 && b.len() == 0 {
        assert(a =~= b);
    }
}

proof fn lemma_bytes_le_transitive(a: Seq<u8>, b: Seq<u8>, c: Seq<u8>)
    requires
        bytes_le(a, b),
        bytes_le(b, c),
    ensures
        bytes_le(a, c),
    decreases a.len(),
{
    if a.len() > 0 && b.len() > 0 && c.len() > 0 && a[0] == b[0] && b[0] == c[0] {
        lemma_bytes_le_transitive(a.drop_first(), b.drop_first(), c.drop_first());
    }
}

proof fn lemma_group_le_total(a: RiggingGroup, b: RiggingGroup)
    ensures
        group_le(a, b) || group_le(b, a),
{
    lemma_bytes_le_total(name_bytes(a.mesh_object_name), name_bytes(b.mesh_object_name));
}

proof fn lemma_group_le_transitive(a: RiggingGroup, b: RiggingGroup, c: RiggingGroup)
    requires
        group_le(a, b),
        group_le(b, c),
    ensures
        group_le(a, c),
{
    let x = name_bytes(a.mesh_object_name);
    let y = name_bytes(b.mesh_object_name);
    let z = name_bytes(c.mesh_object_name);
    lemma_bytes_le_total(x, y);
    lemma_bytes_le_total(y, z);
    lemma_bytes_le_total(x, z);
    if x != y && y != z {
        lemma_bytes_le_transitive(x, y, z);
    }
}

/// Compares two byte strings lexicographically.
fn bytes_le_exec(a: &[u8], b: &[u8]) -> (r: bool)
    ensures
        r == bytes_le(a@, b@),
{
    let mut i: usize = 0;
    assert(a@.skip(0) =~= a@);
    assert(b@.skip(0) =~= b@);
    while i < a.len() && i < b.len()
        invariant
            i <= a@.len(),
            i <= b@.len(),
            bytes_le(a@, b@) == bytes_le(a@.skip(i as int), b@.skip(i as int)),
        decreases a@.len() - i,
    {
        if a[i] != b[i] {
            return a[i] < b[i];
        }
        assert(a@.skip(i as int).drop_first() =~= a@.skip(i + 1));
        assert(b@.skip(i as int).drop_first() =~= b@.skip(i + 1));
        i = i + 1;
    }
    a.len() <= b.len()
}

/// Whether `a` comes before or together with `b` in the order of rigging groups.
fn group_le_exec(a: &RiggingGroup, b: &RiggingGroup) -> (r: bool)
    ensures
        r == group_le(*a, *b),
{
    let x = a.mesh_object_name.as_str().as_bytes();
    let y = b.mesh_object_name.as_str().as_bytes();
    let xy = bytes_le_exec(x, y);
    let yx = bytes_le_exec(y, x);
    proof {
        lemma_bytes_le_total(x@, y@);
    }
    if xy && yx {
        a.mesh_object_subindex <= b.mesh_object_subindex
    } else {
        xy
    }
}

/// Sorts the rigging groups by mesh object name and subindex. Groups that compare equal keep
/// their order.
pub fn sort_rigging_groups(groups: Vec<RiggingGroup>) -> (r: Vec<RiggingGroup>)
    ensures
        groups_sorted(r@),
        r@.to_multiset() == groups@.to_multiset(),
{
    broadcast use vstd::seq_lib::group_to_multiset_ensures;

    let mut rest = groups;
    let mut sorted: Vec<RiggingGroup> = Vec::new();
    let ghost original = rest@;
    while rest.len() > 0
        invariant
            groups_sorted(sorted@),
            sorted@.to_multiset().add(rest@.to_multiset()) == original.to_multiset(),
        decreases rest@.len(),
    {
        let ghost before = rest@;
        let g = rest.remove(0);
        let mut p: usize = 0;
        while p < sorted.len() && group_le_exec(&sorted[p], &g)
            invariant
                p <= sorted@.len(),
                forall|k: int| 0 <= k < p ==> group_le(#[trigger] sorted@[k], g),
            decreases sorted@.len() - p,
        {
            p = p + 1;
        }
        let ghost old_sorted = sorted@;
        proof {
            if p < old_sorted.len() {
                assert(!group_le(old_sorted[p as int], g));
                lemma_group_le_total(old_sorted[p as int], g);
            }
            assert forall|k: int| p <= k < old_sorted.len() implies group_le(g, #[trigger] old_sorted[k]) by {
                if k > p {
                    lemma_group_le_transitive(g, old_sorted[p as int], old_sorted[k]);
                }
            }
        }
        sorted.insert(p, g);
        proof {
            assert forall|i: int, j: int| 0 <= i < j < sorted@.len() implies group_le(
                #[trigger] sorted@[i],
                #[trigger] sorted@[j],
            ) by {
                if i < p && j == p {
                } else if i < p && j > p {
                    assert(sorted@[j] == old_sorted[j - 1]);
                } else if i == p {
                    assert(sorted@[j] == old_sorted[j - 1]);
                } else if i > p {
                    assert(sorted@[i] == old_sorted[i - 1]);
                    assert(sorted@[j] == old_sorted[j - 1]);
                } else {
                    assert(sorted@[i] == old_sorted[i]);
                    assert(sorted@[j] == old_sorted[j]);
                }
            }
            vstd::seq_lib::to_multiset_remove(before, 0);
            vstd::seq_lib::to_multiset_insert(old_sorted, p as int, g);
            assert(before[0] == g);
            assert(before.contains(g));
            vstd::seq_lib::to_multiset_contains(before, g);
            assert(before.to_multiset().contains(g));
            assert(sorted@.to_multiset().add(rest@.to_multiset()) =~= old_sorted.to_multiset().add(
                before.to_multiset(),
            ));
        }
    }
    proof {
        assert(rest@.to_multiset() =~= vstd::multiset::Multiset::empty());
        assert(sorted@.to_multiset().add(rest@.to_multiset()) =~= sorted@.to_multiset());
    }
    sorted
}

/// `groups` holds the skinning data of every object, one group per object, sorted by mesh
/// object name and subindex.
pub open spec fn rigging_buffers_match(groups: Seq<RiggingGroup>, objects: Seq<MeshObjectData>, v10: bool) -> bool {
    &&& groups_sorted(groups)
    &&& exists|unsorted: Seq<RiggingGroup>| {
        &&& unsorted.len() == objects.len()
        &&& (forall|i: int| 0 <= i < objects.len() ==> rigging_group_matches(#[trigger] unsorted[i], objects[i], v10))
        &&& #[trigger] unsorted.to_multiset() == groups.to_multiset()
    }
}

/// The skinning data of the mesh objects, sorted by mesh object name and subindex as the file
/// requires. Version 1.10 stores skin weight vertex indices as `u16` and fails with an index
/// that does not fit.
pub fn create_rigging_buffers(objects: &Vec<MeshObjectData>, v10: bool) -> (r: Result<Vec<RiggingGroup>, Error>)
    ensures
        (!v10 || skin_weights_fit_u16(objects@)) ==> (r matches Ok(groups) && rigging_buffers_match(
            groups@,
            objects@,
            v10,
        )),
        r matches Err(e) ==> v10 && (e matches Error::SkinWeightVertexIndexExceedsLimit {
            vertex_index,
            limit,
            major_version,
            minor_version,
        } && limit == u16::MAX && major_version == 1 && minor_version == 10 && exists|i: int, j: int, k: int|
            0 <= i < objects@.len() && 0 <= j < objects@[i].bone_influences@.len() && 0 <= k
                < objects@[i].bone_influences@[j].vertex_weights@.len()
                && #[trigger] objects@[i].bone_influences@[j].vertex_weights@[k].vertex_index == vertex_index
                && vertex_index > u16::MAX),
        r is Err ==> !skin_weights_fit_u16(objects@),
        r is Ok && v10 ==> skin_weights_fit_u16(objects@),
{
    let groups = match rigging_groups(objects, v10) {
        Ok(g) => g,
        Err(e) => return Err(e),
    };
    let ghost unsorted = groups@;
    let sorted = sort_rigging_groups(groups);
    proof {
        assert(unsorted.to_multiset() == sorted@.to_multiset());
    }
    Ok(sorted)
}

} // verus!
