//! Vertex adjacency data for `.adjb` files.
use vstd::prelude::*;
use crate::float_bits::{f32_vectors_eq, f32_vectors_equal};
use crate::mesh_data::{MeshObjectData, VectorData};

verus! {

/// The number of adjacency entries stored for each vertex in Smash Ultimate files.
/// For triangle faces, omitting the shared vertex leaves room for 9 adjacent faces.
pub const MAX_ADJACENT_VERTICES: usize = 18;

/// The entries that one face contributes to the adjacency list of vertex `v`:
/// the two other corners for each corner of the face that is `v`.
pub open spec fn face_contribution(f0: u32, f1: u32, f2: u32, v: int) -> Seq<i16> {
    (if f0 == v { seq![f1 as i16, f2 as i16] } else { Seq::<i16>::empty() })
        + (if f1 == v { seq![f2 as i16, f0 as i16] } else { Seq::<i16>::empty() })
        + (if f2 == v { seq![f0 as i16, f1 as i16] } else { Seq::<i16>::empty() })
}

/// The adjacency list of vertex `v` from the first `face_count` triangles of `indices`.
pub open spec fn face_adjacency(indices: Seq<u32>, face_count: nat, v: int) -> Seq<i16>
    decreases face_count,
{
    if face_count == 0 {
        Seq::<i16>::empty()
    } else {
        let k = face_count - 1;
        face_adjacency(indices, k as nat, v) + face_contribution(
            indices[3 * k],
            indices[3 * k + 1],
            indices[3 * k + 2],
            v,
        )
    }
}

/// The number of complete triangles in `indices`; a trailing remainder is ignored.
pub open spec fn triangle_count(indices: Seq<u32>) -> nat {
    indices.len() / 3
}

/// The adjacency lists of the vertices `0..count` whose position equals the position of vertex `i`,
/// concatenated in vertex order. Vertices split along a seam share their adjacency this way.
pub open spec fn seam_adjacency(indices: Seq<u32>, positions: Seq<Seq<u32>>, i: int, count: nat) -> Seq<i16>
    decreases count,
{
    if count == 0 {
        Seq::<i16>::empty()
    } else {
        let j = count - 1;
        seam_adjacency(indices, positions, i, j as nat) + if f32_vectors_eq(positions[j], positions[i]) {
            face_adjacency(indices, triangle_count(indices), j)
        } else {
            Seq::<i16>::empty()
        }
    }
}

/// `s` cut or padded with `-1` to exactly `n` entries.
pub open spec fn pad_adjacency(s: Seq<i16>, n: nat) -> Seq<i16> {
    if s.len() >= n {
        s.take(n as int)
    } else {
        s + Seq::new((n - s.len()) as nat, |k: int| -1i16)
    }
}

/// The padded seam adjacency of the vertices `0..count`, flattened.
pub open spec fn adjacency_buffer(indices: Seq<u32>, positions: Seq<Seq<u32>>, padding: nat, count: nat) -> Seq<i16>
    decreases count,
{
    if count == 0 {
        Seq::<i16>::empty()
    } else {
        adjacency_buffer(indices, positions, padding, (count - 1) as nat) + pad_adjacency(
            seam_adjacency(indices, positions, count - 1, positions.len()),
            padding,
        )
    }
}

/// The first `face_count` triangles give the same lists whatever follows them.
proof fn lemma_face_adjacency_prefix(indices: Seq<u32>, other: Seq<u32>, face_count: nat, v: int)
    requires
        3 * face_count <= indices.len(),
        3 * face_count <= other.len(),
        forall|k: int| 0 <= k < 3 * face_count ==> indices[k] == other[k],
    ensures
        face_adjacency(indices, face_count, v) == face_adjacency(other, face_count, v),
    decreases face_count,
{
    if face_count > 0 {
        let k = face_count - 1;
        lemma_face_adjacency_prefix(indices, other, k as nat, v);
        assert(indices[3 * k] == other[3 * k]);
        assert(indices[3 * k + 1] == other[3 * k + 1]);
        assert(indices[3 * k + 2] == other[3 * k + 2]);
    }
}

proof fn lemma_seam_adjacency_complete(indices: Seq<u32>, positions: Seq<Seq<u32>>, i: int, count: nat)
    ensures
        seam_adjacency(indices, positions, i, count)
            == seam_adjacency(indices.take((3 * triangle_count(indices)) as int), positions, i, count),
    decreases count,
{
    let whole = indices.take((3 * triangle_count(indices)) as int);
    assert(triangle_count(whole) == triangle_count(indices));
    if count > 0 {
        lemma_seam_adjacency_complete(indices, positions, i, (count - 1) as nat);
        lemma_face_adjacency_prefix(indices, whole, triangle_count(indices), (count - 1) as int);
    }
}

/// A trailing partial triangle is ignored: the adjacency buffer of the indices equals that
/// of their complete triangles alone.
pub proof fn lemma_adjacency_ignores_partial_triangle(indices: Seq<u32>, positions: Seq<Seq<u32>>, padding: nat, count: nat)
    ensures
        adjacency_buffer(indices, positions, padding, count)
            == adjacency_buffer(indices.take((3 * triangle_count(indices)) as int), positions, padding, count),
        faces_in_range(indices, count) == faces_in_range(indices.take((3 * triangle_count(indices)) as int), count),
    decreases count,
{
    let whole = indices.take((3 * triangle_count(indices)) as int);
    assert(triangle_count(whole) == triangle_count(indices));
    if count > 0 {
        lemma_adjacency_ignores_partial_triangle(indices, positions, padding, (count - 1) as nat);
        lemma_seam_adjacency_complete(indices, positions, count - 1, positions.len());
    }
    assert(faces_in_range(indices, count) == faces_in_range(whole, count)) by {
        if faces_in_range(indices, count) {
            assert forall|k: int| 0 <= k < 3 * triangle_count(whole) implies #[trigger] whole[k] < count by {
                assert(indices[k] < count);
            }
        }
        if faces_in_range(whole, count) {
            assert forall|k: int| 0 <= k < 3 * triangle_count(indices) implies #[trigger] indices[k] < count by {
                assert(whole[k] < count);
            }
        }
    }
}

/// The vertices of `p` and `q` compare equal in the same pairs.
pub open spec fn same_position_equalities(p: Seq<Seq<u32>>, q: Seq<Seq<u32>>) -> bool {
    &&& p.len() == q.len()
    &&& forall|i: int, j: int|
        0 <= i < p.len() && 0 <= j < p.len() ==> (f32_vectors_eq(#[trigger] p[i], #[trigger] p[j])
            <==> f32_vectors_eq(q[i], q[j]))
}

proof fn lemma_seam_adjacency_equalities(indices: Seq<u32>, p: Seq<Seq<u32>>, q: Seq<Seq<u32>>, i: int, count: nat)
    requires
        same_position_equalities(p, q),
        0 <= i < p.len(),
        count <= p.len(),
    ensures
        seam_adjacency(indices, p, i, count) == seam_adjacency(indices, q, i, count),
    decreases count,
{
    if count > 0 {
        lemma_seam_adjacency_equalities(indices, p, q, i, (count - 1) as nat);
        assert(f32_vectors_eq(p[count - 1], p[i]) == f32_vectors_eq(q[count - 1], q[i]));
    }
}

/// The adjacency depends on the positions only through which vertices share a position:
/// positions with any number of components, or other values, that compare equal in the same
/// pairs give the same adjacency buffer.
pub proof fn lemma_adjacency_depends_on_position_equality(
    indices: Seq<u32>,
    p: Seq<Seq<u32>>,
    q: Seq<Seq<u32>>,
    padding: nat,
    count: nat,
)
    requires
        same_position_equalities(p, q),
        count <= p.len(),
    ensures
        adjacency_buffer(indices, p, padding, count) == adjacency_buffer(indices, q, padding, count),
    decreases count,
{
    if count > 0 {
        lemma_adjacency_depends_on_position_equality(indices, p, q, padding, (count - 1) as nat);
        lemma_seam_adjacency_equalities(indices, p, q, count - 1, p.len());
    }
}

/// The vertex positions as sequences of `f32` bit patterns.
pub open spec fn position_views(positions: Seq<Vec<u32>>) -> Seq<Seq<u32>> {
    positions.map_values(|p: Vec<u32>| p@)
}

/// Every corner of every complete triangle refers to an existing vertex.
pub open spec fn faces_in_range(indices: Seq<u32>, vertex_count: nat) -> bool {
    forall|k: int| 0 <= k < 3 * triangle_count(indices) ==> #[trigger] indices[k] < vertex_count
}

/// Appends `a` and then `b` to the list at index `i`.
fn push_pair(lists: &mut Vec<Vec<i16>>, i: usize, a: i16, b: i16)
    requires
        i < old(lists)@.len(),
    ensures
        final(lists)@.len() == old(lists)@.len(),
        final(lists)@[i as int]@ == old(lists)@[i as int]@ + seq![a, b],
        forall|m: int| 0 <= m < old(lists)@.len() && m != i ==> final(lists)@[m] == old(lists)@[m],
{
    let mut list: Vec<i16> = Vec::new();
    lists.set_and_swap(i, &mut list);
    list.push(a);
    list.push(b);
    lists.set_and_swap(i, &mut list);
    assert(final(lists)@[i as int]@ =~= old(lists)@[i as int]@ + seq![a, b]);
}

/// Computes the adjacency lists of all vertices from the triangle faces, one pass over the faces.
fn face_adjacency_lists(vertex_indices: &[u32], vertex_count: usize) -> (lists: Vec<Vec<i16>>)
    requires
        faces_in_range(vertex_indices@, vertex_count as nat),
    ensures
        lists@.len() == vertex_count,
        forall|v: int| 0 <= v < vertex_count ==>
            #[trigger] lists@[v]@ == face_adjacency(vertex_indices@, triangle_count(vertex_indices@), v),
{
    let mut lists: Vec<Vec<i16>> = Vec::new();
    let mut v: usize = 0;
    while v < vertex_count
        invariant
            v <= vertex_count,
            lists@.len() == v,
            forall|m: int| 0 <= m < v ==> (#[trigger] lists@[m])@ == Seq::<i16>::empty(),
        decreases vertex_count - v,
    {
        lists.push(Vec::new());
        v = v + 1;
    }
    let index_count = vertex_indices.len();
    let face_count = index_count / 3;
    let mut f: usize = 0;
    while f < face_count
        invariant
            face_count == triangle_count(vertex_indices@),
            index_count == vertex_indices@.len(),
            f <= face_count,
            faces_in_range(vertex_indices@, vertex_count as nat),
            lists@.len() == vertex_count,
            forall|m: int| 0 <= m < vertex_count ==>
                #[trigger] lists@[m]@ == face_adjacency(vertex_indices@, f as nat, m),
        decreases face_count - f,
    {
        assert(3 * f + 2 < vertex_indices@.len()) by (nonlinear_arith)
            requires
                f < face_count,
                face_count == vertex_indices@.len() / 3,
        {}
        let v0 = vertex_indices[3 * f];
        let v1 = vertex_indices[3 * f + 1];
        let v2 = vertex_indices[3 * f + 2];
        assert(vertex_indices@[3 * f as int] < vertex_count);
        assert(vertex_indices@[3 * f + 1] < vertex_count);
        assert(vertex_indices@[3 * f + 2] < vertex_count);
        let ghost before = lists@;
        push_pair(&mut lists, v0 as usize, #[verifier::truncate] (v1 as i16), #[verifier::truncate] (v2 as i16));
        let ghost mid1 = lists@;
        push_pair(&mut lists, v1 as usize, #[verifier::truncate] (v2 as i16), #[verifier::truncate] (v0 as i16));
        let ghost mid2 = lists@;
        push_pair(&mut lists, v2 as usize, #[verifier::truncate] (v0 as i16), #[verifier::truncate] (v1 as i16));
        assert forall|m: int| 0 <= m < vertex_count implies
            #[trigger] lists@[m]@ == face_adjacency(vertex_indices@, (f + 1) as nat, m) by {
            let c0 = if v0 == m { seq![#[verifier::truncate] (v1 as i16), #[verifier::truncate] (v2 as i16)] } else { Seq::<i16>::empty() };
            let c1 = if v1 == m { seq![#[verifier::truncate] (v2 as i16), #[verifier::truncate] (v0 as i16)] } else { Seq::<i16>::empty() };
            let c2 = if v2 == m { seq![#[verifier::truncate] (v0 as i16), #[verifier::truncate] (v1 as i16)] } else { Seq::<i16>::empty() };
            assert(mid1[m]@ =~= before[m]@ + c0);
            assert(mid2[m]@ =~= mid1[m]@ + c1);
            assert(lists@[m]@ =~= mid2[m]@ + c2);
            assert(face_contribution(v0, v1, v2, m) == c0 + c1 + c2);
            assert(lists@[m]@ =~= before[m]@ + (c0 + c1 + c2));
        }
        f = f + 1;
    }
    lists
}

/// Appends all elements of `src` to `dst`.
fn append_all(dst: &mut Vec<i16>, src: &Vec<i16>)
    ensures
        final(dst)@ == old(dst)@ + src@,
{
    let mut k: usize = 0;
    while k < src.len()
        invariant
            k <= src@.len(),
            dst@ == old(dst)@ + src@.take(k as int),
        decreases src@.len() - k,
    {
        dst.push(src[k]);
        k = k + 1;
        assert(src@.take(k as int) =~= src@.take(k - 1) + seq![src@[k - 1]]);
    }
    assert(src@.take(src@.len() as int) =~= src@);
}

/// Cuts or pads `list` with `-1` to exactly `n` entries.
fn pad_list(list: &mut Vec<i16>, n: usize)
    ensures
        final(list)@ == pad_adjacency(old(list)@, n as nat),
{
    if list.len() >= n {
        list.truncate(n);
    } else {
        let ghost start = list@;
        while list.len() < n
            invariant
                start.len() < n,
                start.len() <= list@.len() <= n,
                list@ =~= start + Seq::new((list@.len() - start.len()) as nat, |k: int| -1i16),
            decreases n - list@.len(),
        {
            list.push(-1i16);
        }
    }
}

/// Computes the vertex adjacency buffer from triangle faces.
///
/// The adjacency list of each vertex holds, for every triangle corner at that vertex,
/// the other two corners of the triangle. Vertices at the same position (by `f32` equality
/// of all components) share their lists, which avoids seams along split edges.
/// Each list is cut or padded with `-1` to `padding_size` entries and the lists are flattened.
pub fn triangle_adjacency(
    vertex_indices: &[u32],
    vertex_positions: &[Vec<u32>],
    padding_size: usize,
) -> (r: Vec<i16>)
    requires
        faces_in_range(vertex_indices@, vertex_positions@.len()),
        vertex_positions@.len() * padding_size <= usize::MAX,
    ensures
        r@ == adjacency_buffer(
            vertex_indices@,
            position_views(vertex_positions@),
            padding_size as nat,
            vertex_positions@.len(),
        ),
{
    let n = vertex_positions.len();
    let lists = face_adjacency_lists(vertex_indices, n);
    let ghost positions = position_views(vertex_positions@);
    let mut result: Vec<i16> = Vec::new();
    let mut i: usize = 0;
    while i < n
        invariant
            n == vertex_positions@.len(),
            positions == position_views(vertex_positions@),
            i <= n,
            lists@.len() == n,
            forall|v: int| 0 <= v < n ==>
                #[trigger] lists@[v]@ == face_adjacency(vertex_indices@, triangle_count(vertex_indices@), v),
            result@ == adjacency_buffer(vertex_indices@, positions, padding_size as nat, i as nat),
        decreases n - i,
    {
        let mut row: Vec<i16> = Vec::new();
        let mut j: usize = 0;
        while j < n
            invariant
                n == vertex_positions@.len(),
                positions == position_views(vertex_positions@),
                i < n,
                j <= n,
                lists@.len() == n,
                forall|v: int| 0 <= v < n ==>
                    #[trigger] lists@[v]@ == face_adjacency(vertex_indices@, triangle_count(vertex_indices@), v),
                row@ == seam_adjacency(vertex_indices@, positions, i as int, j as nat),
            decreases n - j,
        {
            assert(positions[j as int] == vertex_positions@[j as int]@);
            assert(positions[i as int] == vertex_positions@[i as int]@);
            if f32_vectors_equal(vertex_positions[j].as_slice(), vertex_positions[i].as_slice()) {
                append_all(&mut row, &lists[j]);
            } else {
                assert(row@ =~= row@ + Seq::<i16>::empty());
            }
            j = j + 1;
        }
        assert(positions.len() == n);
        pad_list(&mut row, padding_size);
        append_all(&mut result, &row);
        i = i + 1;
    }
    result
}


#[verifier::external_type_specification]
#[verifier::external_body]
pub struct ExIoError(std::io::Error);

/// Errors while converting adjacency data.
#[derive(Debug)]
pub enum AdjError {
    /// An error occurred while writing data to a buffer.
    Io(std::io::Error),
}

/// The adjacency data for a single mesh object.
#[derive(Debug, PartialEq, Eq)]
pub struct AdjEntryData {
    pub mesh_object_index: usize,
    pub vertex_adjacency: Vec<i16>,
}

/// The data associated with an adjacency file: one entry per mesh object.
#[derive(Debug, PartialEq, Eq)]
pub struct AdjData {
    pub entries: Vec<AdjEntryData>,
}

impl View for AdjEntryData {
    type V = (usize, Seq<i16>);

    open spec fn view(&self) -> (usize, Seq<i16>) {
        (self.mesh_object_index, self.vertex_adjacency@)
    }
}

impl View for AdjData {
    type V = Seq<(usize, Seq<i16>)>;

    open spec fn view(&self) -> Seq<(usize, Seq<i16>)> {
        self.entries@.map_values(|e: AdjEntryData| e@)
    }
}

/// An entry of an adjacency file as stored on disk.
#[derive(Debug, PartialEq, Eq, Clone, Copy)]
pub struct AdjEntry {
    /// The index of the mesh object.
    pub mesh_object_index: u32,
    /// The byte offset of this entry's section in the index buffer.
    /// The section ends at the offset of the next entry, or at the end of the buffer.
    pub index_buffer_offset: u32,
}

/// The contents of an adjacency file: the entries and the shared index buffer.
#[derive(Debug, PartialEq, Eq)]
pub struct Adj {
    pub entries: Vec<AdjEntry>,
    pub index_buffer: Vec<i16>,
}

impl View for Adj {
    type V = (Seq<(u32, u32)>, Seq<i16>);

    open spec fn view(&self) -> (Seq<(u32, u32)>, Seq<i16>) {
        (
            self.entries@.map_values(|e: AdjEntry| (e.mesh_object_index, e.index_buffer_offset)),
            self.index_buffer@,
        )
    }
}

impl AdjEntryData {
    /// Computes the vertex adjacency information from triangle faces.
    /// `vertex_indices.len()` should be a multiple of 3; a remainder is ignored.
    pub fn from_triangle_faces(
        mesh_object_index: usize,
        vertex_positions: &[Vec<u32>],
        vertex_indices: &[u32],
    ) -> (r: Self)
        requires
            faces_in_range(vertex_indices@, vertex_positions@.len()),
            vertex_positions@.len() * MAX_ADJACENT_VERTICES <= usize::MAX,
        ensures
            r.mesh_object_index == mesh_object_index,
            r.vertex_adjacency@ == adjacency_buffer(
                vertex_indices@,
                position_views(vertex_positions@),
                MAX_ADJACENT_VERTICES as nat,
                vertex_positions@.len(),
            ),
    {
        AdjEntryData {
            mesh_object_index,
            vertex_adjacency: triangle_adjacency(vertex_indices, vertex_positions, MAX_ADJACENT_VERTICES),
        }
    }
}

impl AdjEntryData {
    /// Computes the vertex adjacency information from triangle faces for the given vertex positions.
    pub fn from_vector_data(
        mesh_object_index: usize,
        vertex_positions: &VectorData,
        vertex_indices: &[u32],
    ) -> (r: Self)
        requires
            faces_in_range(vertex_indices@, vertex_positions.vertices().len()),
            vertex_positions.vertices().len() * MAX_ADJACENT_VERTICES <= usize::MAX,
        ensures
            r.mesh_object_index == mesh_object_index,
            r.vertex_adjacency@ == adjacency_buffer(
                vertex_indices@,
                vertex_positions.vertices(),
                MAX_ADJACENT_VERTICES as nat,
                vertex_positions.vertices().len(),
            ),
    {
        let positions = vertex_positions.to_component_vecs();
        assert(positions@.len() == vertex_positions.vertices().len()) by {
            assert(positions@.map_values(|p: Vec<u32>| p@).len() == positions@.len());
        }
        Self::from_triangle_faces(mesh_object_index, positions.as_slice(), vertex_indices)
    }

    /// Computes the vertex adjacency information from the first position attribute of the mesh object.
    /// Objects without positions have no adjacency information.
    pub fn from_mesh_object(mesh_object_index: usize, object: &MeshObjectData) -> (r: Self)
        requires
            object.positions@.len() > 0 ==> faces_in_range(object.vertex_indices@, object.positions@[0].data.vertices().len()),
            object.positions@.len() > 0 ==> object.positions@[0].data.vertices().len() * MAX_ADJACENT_VERTICES <= usize::MAX,
        ensures
            r.mesh_object_index == mesh_object_index,
            object.positions@.len() == 0 ==> r.vertex_adjacency@.len() == 0,
            object.positions@.len() > 0 ==> r.vertex_adjacency@ == adjacency_buffer(
                object.vertex_indices@,
                object.positions@[0].data.vertices(),
                MAX_ADJACENT_VERTICES as nat,
                object.positions@[0].data.vertices().len(),
            ),
    {
        if object.positions.len() > 0 {
            Self::from_vector_data(mesh_object_index, &object.positions[0].data, object.vertex_indices.as_slice())
        } else {
            AdjEntryData { mesh_object_index, vertex_adjacency: Vec::new() }
        }
    }
}

/// Computing the adjacency from vertex data gives what computing it from the same positions
/// as component lists gives, whatever the number of components: `from_vector_data` and
/// `from_triangle_faces` agree when the component lists hold the vertex data's components.
pub proof fn lemma_vector_data_adjacency_matches_faces(
    vertex_positions: VectorData,
    positions: Seq<Vec<u32>>,
    indices: Seq<u32>,
)
    requires
        positions.len() == vertex_positions.vertices().len(),
        forall|i: int| 0 <= i < positions.len() ==> (#[trigger] positions[i])@ == vertex_positions.vertices()[i],
    ensures
        adjacency_buffer(
            indices,
            vertex_positions.vertices(),
            MAX_ADJACENT_VERTICES as nat,
            vertex_positions.vertices().len(),
        ) == adjacency_buffer(indices, position_views(positions), MAX_ADJACENT_VERTICES as nat, positions.len()),
{
    assert(position_views(positions) =~= vertex_positions.vertices());
}

/// The number of adjacency values in the first `k` entries.
pub open spec fn entries_total(d: Seq<(usize, Seq<i16>)>, k: nat) -> nat
    decreases k,
{
    if k == 0 {
        0
    } else {
        entries_total(d, (k - 1) as nat) + d[k - 1].1.len()
    }
}

/// The adjacency values of the first `k` entries, concatenated.
pub open spec fn entries_flattened(d: Seq<(usize, Seq<i16>)>, k: nat) -> Seq<i16>
    decreases k,
{
    if k == 0 {
        Seq::<i16>::empty()
    } else {
        entries_flattened(d, (k - 1) as nat) + d[k - 1].1
    }
}

/// The file contents for the adjacency data `d`: each entry records its mesh object index
/// and the byte offset of its values, and the values of all entries are stored back to back.
pub open spec fn adj_of_data(d: Seq<(usize, Seq<i16>)>) -> (Seq<(u32, u32)>, Seq<i16>) {
    (
        Seq::new(d.len(), |k: int| (d[k].0 as u32, (2 * entries_total(d, k as nat)) as u32)),
        entries_flattened(d, d.len()),
    )
}

/// The first index buffer element of entry `k`.
pub open spec fn entry_start(a: (Seq<(u32, u32)>, Seq<i16>), k: int) -> int {
    a.0[k].1 as int / 2
}

/// The index buffer element after the last element of entry `k`:
/// the start of the next entry, or the end of the buffer for the last entry.
pub open spec fn entry_end(a: (Seq<(u32, u32)>, Seq<i16>), k: int) -> int {
    if k + 1 < a.0.len() {
        entry_start(a, k + 1)
    } else {
        a.1.len() as int
    }
}

/// Every entry's section lies within the index buffer and does not end before it starts.
pub open spec fn adj_sections_valid(a: (Seq<(u32, u32)>, Seq<i16>)) -> bool {
    forall|k: int| 0 <= k < a.0.len() ==> entry_start(a, k) <= #[trigger] entry_end(a, k) <= a.1.len()
}

/// The adjacency data stored in the file contents `a`.
pub open spec fn data_of_adj(a: (Seq<(u32, u32)>, Seq<i16>)) -> Seq<(usize, Seq<i16>)> {
    Seq::new(a.0.len(), |k: int| (a.0[k].0 as usize, a.1.subrange(entry_start(a, k), entry_end(a, k))))
}

impl AdjData {
    /// Converts the adjacency data to the file representation.
    pub fn to_adj(&self) -> (r: Adj)
        requires
            2 * entries_total(self@, self@.len()) <= usize::MAX,
        ensures
            r@ == adj_of_data(self@),
    {
        let ghost d = self@;
        let mut entries: Vec<AdjEntry> = Vec::new();
        let mut index_buffer: Vec<i16> = Vec::new();
        let mut offset: usize = 0;
        let mut k: usize = 0;
        proof {
            lemma_entries_total_monotonic(d, 0, d.len());
        }
        while k < self.entries.len()
            invariant
                d == self@,
                d.len() == self.entries@.len(),
                2 * entries_total(d, d.len()) <= usize::MAX,
                k <= d.len(),
                offset == 2 * entries_total(d, k as nat),
                index_buffer@ == entries_flattened(d, k as nat),
                entries@.len() == k,
                forall|m: int| 0 <= m < k ==> (#[trigger] entries@[m]).mesh_object_index == d[m].0 as u32
                    && entries@[m].index_buffer_offset == (2 * entries_total(d, m as nat)) as u32,
            decreases d.len() - k,
        {
            let entry = &self.entries[k];
            assert(d[k as int] == entry@);
            entries.push(AdjEntry {
                mesh_object_index: #[verifier::truncate] (entry.mesh_object_index as u32),
                index_buffer_offset: #[verifier::truncate] (offset as u32),
            });
            proof {
                lemma_entries_total_monotonic(d, (k + 1) as nat, d.len());
            }
            let mut m: usize = 0;
            let ghost before = index_buffer@;
            while m < entry.vertex_adjacency.len()
                invariant
                    m <= entry.vertex_adjacency@.len(),
                    index_buffer@ == before + entry.vertex_adjacency@.take(m as int),
                decreases entry.vertex_adjacency@.len() - m,
            {
                index_buffer.push(entry.vertex_adjacency[m]);
                m = m + 1;
                assert(entry.vertex_adjacency@.take(m as int) =~= entry.vertex_adjacency@.take(m - 1) + seq![entry.vertex_adjacency@[m - 1]]);
            }
            assert(entry.vertex_adjacency@.take(m as int) =~= entry.vertex_adjacency@);
            offset = offset + 2 * entry.vertex_adjacency.len();
            k = k + 1;
        }
        let r = Adj { entries, index_buffer };
        assert(r@.0 =~= adj_of_data(d).0);
        r
    }

    /// Reads the adjacency data from the file representation.
    /// The section of each entry runs from its offset to the offset of the next entry,
    /// and the last entry uses the remaining values.
    pub fn from_adj(adj: &Adj) -> (r: AdjData)
        requires
            adj_sections_valid(adj@),
        ensures
            r@ == data_of_adj(adj@),
    {
        let ghost a = adj@;
        let mut entries: Vec<AdjEntryData> = Vec::new();
        let n = adj.entries.len();
        let mut k: usize = 0;
        while k < n
            invariant
                a == adj@,
                n == a.0.len(),
                adj_sections_valid(a),
                k <= n,
                entries@.len() == k,
                forall|m: int| 0 <= m < k ==> (#[trigger] entries@[m])@ == data_of_adj(a)[m],
            decreases n - k,
        {
            let entry = adj.entries[k];
            let start = (entry.index_buffer_offset / 2) as usize;
            let end = if k + 1 < n {
                (adj.entries[k + 1].index_buffer_offset / 2) as usize
            } else {
                adj.index_buffer.len()
            };
            assert(start == entry_start(a, k as int));
            assert(end == entry_end(a, k as int));
            assert(entry_start(a, k as int) <= entry_end(a, k as int) <= a.1.len());
            let mut values: Vec<i16> = Vec::new();
            let mut m: usize = start;
            while m < end
                invariant
                    start <= m <= end <= adj.index_buffer@.len(),
                    values@ == adj.index_buffer@.subrange(start as int, m as int),
                decreases end - m,
            {
                values.push(adj.index_buffer[m]);
                m = m + 1;
                assert(adj.index_buffer@.subrange(start as int, m as int) =~= adj.index_buffer@.subrange(start as int, m - 1) + seq![adj.index_buffer@[m - 1]]);
            }
            entries.push(AdjEntryData { mesh_object_index: entry.mesh_object_index as usize, vertex_adjacency: values });
            k = k + 1;
        }
        let r = AdjData { entries };
        assert(r@ =~= data_of_adj(a));
        r
    }
}

/// Totals of longer prefixes are at least as large.
pub proof fn lemma_entries_total_monotonic(d: Seq<(usize, Seq<i16>)>, j: nat, k: nat)
    requires
        j <= k,
    ensures
        entries_total(d, j) <= entries_total(d, k),
    decreases k,
{
    if j < k {
        lemma_entries_total_monotonic(d, j, (k - 1) as nat);
    }
}

/// The concatenated values are exactly as long as the total count.
pub proof fn lemma_entries_flattened_len(d: Seq<(usize, Seq<i16>)>, k: nat)
    ensures
        entries_flattened(d, k).len() == entries_total(d, k),
    decreases k,
{
    if k > 0 {
        lemma_entries_flattened_len(d, (k - 1) as nat);
    }
}

/// The values of entry `k` sit between the totals of the entries before and after it.
pub proof fn lemma_entries_flattened_section(d: Seq<(usize, Seq<i16>)>, n: nat, k: nat)
    requires
        k < n,
    ensures
        entries_flattened(d, n).subrange(entries_total(d, k) as int, entries_total(d, k + 1) as int) == d[k as int].1,
    decreases n,
{
    lemma_entries_flattened_len(d, n);
    lemma_entries_flattened_len(d, (n - 1) as nat);
    if k + 1 == n {
        assert(entries_flattened(d, n).subrange(entries_total(d, k) as int, entries_total(d, k + 1) as int)
            =~= d[k as int].1);
    } else {
        lemma_entries_flattened_section(d, (n - 1) as nat, k);
        lemma_entries_total_monotonic(d, k + 1, (n - 1) as nat);
        assert(entries_flattened(d, n).subrange(entries_total(d, k) as int, entries_total(d, k + 1) as int)
            =~= entries_flattened(d, (n - 1) as nat).subrange(entries_total(d, k) as int, entries_total(d, k + 1) as int));
    }
}

/// Writing adjacency data to the file representation and reading it back gives the same data,
/// when every mesh object index and every byte offset fits in the file's 32 bit fields.
pub proof fn lemma_adj_roundtrip(d: Seq<(usize, Seq<i16>)>)
    requires
        forall|k: int| 0 <= k < d.len() ==> #[trigger] d[k].0 <= u32::MAX,
        2 * entries_total(d, d.len()) <= u32::MAX,
    ensures
        adj_sections_valid(adj_of_data(d)),
        data_of_adj(adj_of_data(d)) == d,
{
    let a = adj_of_data(d);
    lemma_entries_flattened_len(d, d.len());
    assert forall|k: int| 0 <= k < d.len() implies entry_start(a, k) == entries_total(d, k as nat) by {
        lemma_entries_total_monotonic(d, k as nat, d.len());
    }
    assert forall|k: int| 0 <= k < d.len() implies #[trigger] entry_end(a, k) == entries_total(d, (k + 1) as nat) by {
        lemma_entries_total_monotonic(d, (k + 1) as nat, d.len());
        if k + 1 < d.len() {
            assert(entry_start(a, k + 1) == entries_total(d, (k + 1) as nat));
        }
    }
    assert forall|k: int| 0 <= k < a.0.len() implies entry_start(a, k) <= #[trigger] entry_end(a, k) <= a.1.len() by {
        lemma_entries_total_monotonic(d, (k + 1) as nat, d.len());
        assert(entry_start(a, k) == entries_total(d, k as nat));
    }
    assert forall|k: int| 0 <= k < d.len() implies #[trigger] data_of_adj(a)[k] == d[k] by {
        assert(entry_start(a, k) == entries_total(d, k as nat));
        lemma_entries_flattened_section(d, d.len(), k as nat);
    }
    assert(data_of_adj(a) =~= d);
}

/// The file contents are in the form that writing produces: sections start at offset zero,
/// follow each other without gaps and use even byte offsets.
pub open spec fn adj_canonical(a: (Seq<(u32, u32)>, Seq<i16>)) -> bool {
    &&& adj_sections_valid(a)
    &&& a.0.len() == 0 ==> a.1.len() == 0
    &&& a.0.len() > 0 ==> a.0[0].1 == 0
    &&& forall|k: int| 0 <= k < a.0.len() ==> #[trigger] a.0[k].1 % 2 == 0
}

/// Reading file contents in the written form and writing the result gives the same contents.
pub proof fn lemma_adj_rewrite(a: (Seq<(u32, u32)>, Seq<i16>))
    requires
        adj_canonical(a),
    ensures
        adj_of_data(data_of_adj(a)) == a,
{
    let d = data_of_adj(a);
    let n = a.0.len();
    assert forall|k: nat| k <= n implies
        entries_total(d, k) == (if k < n { entry_start(a, k as int) } else { a.1.len() as int })
        && entries_flattened(d, k) == a.1.subrange(0, entries_total(d, k) as int) by {
        lemma_adj_rewrite_prefix(a, k);
    }
    let w = adj_of_data(d);
    assert forall|k: int| 0 <= k < n implies #[trigger] w.0[k] == a.0[k] by {
        assert(entries_total(d, k as nat) == entry_start(a, k));
        assert(a.0[k].1 % 2 == 0);
    }
    assert(w.0 =~= a.0);
    if n == 0 {
        assert(w.1 =~= a.1);
    } else {
        assert(a.1.subrange(0, a.1.len() as int) =~= a.1);
    }
}

proof fn lemma_adj_rewrite_prefix(a: (Seq<(u32, u32)>, Seq<i16>), k: nat)
    requires
        adj_canonical(a),
        k <= a.0.len(),
    ensures
        entries_total(data_of_adj(a), k) == (if k < a.0.len() { entry_start(a, k as int) } else { a.1.len() as int }),
        entries_flattened(data_of_adj(a), k) == a.1.subrange(0, entries_total(data_of_adj(a), k) as int),
    decreases k,
{
    let d = data_of_adj(a);
    if k == 0 {
        if a.0.len() > 0 {
            assert(entry_start(a, 0) == 0);
        }
        assert(a.1.subrange(0, 0) =~= Seq::<i16>::empty());
    } else {
        lemma_adj_rewrite_prefix(a, (k - 1) as nat);
        let j = k - 1;
        assert(entry_start(a, j as int) <= entry_end(a, j as int) <= a.1.len());
        assert(d[j as int].1 == a.1.subrange(entry_start(a, j as int), entry_end(a, j as int)));
        assert(a.1.subrange(0, entry_end(a, j as int)) =~= a.1.subrange(0, entry_start(a, j as int)) + a.1.subrange(entry_start(a, j as int), entry_end(a, j as int)));
    }
}

} // verus!
