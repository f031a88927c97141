//! Assembling a version 1.2 animation: a track for each node's track, in the order of the
//! groups, nodes and tracks, each with its properties in a fixed order, and a buffer for
//! each property, numbered in the order the properties are written.
//!
//! Which transform properties differ from the identity, and whether a multi-frame property
//! holds one value throughout, are floating-point comparisons with a tolerance, and
//! rotations are normalized; the caller makes those and passes their results.
use vstd::prelude::*;
use crate::anim_data::{AnimData, GroupData, GroupType, NodeData, TrackData, TrackValues, Transform, UvTransform};
use crate::anim_data::buffers::uncompressed::{uv_transform_words, uv_words, words_le_bytes};
use crate::anim_data::error::Error;
use crate::anim_data::v1::{
    create_v12_compressed_bool_data, create_v12_compressed_uv_data, create_v12_uncompressed_bool_data,
    v12_compressed_bool_bytes, v12_compressed_uv_bytes, v12_uncompressed_bool_bytes,
};
use crate::anim_data::v1::create::{
    checked_final_frame_index, f32_bits_nonnegative, v12_constant_data, v12_quaternion_stream_bytes,
    v12_quaternion_stream_data, v12_track_type, v12_track_type_of, v12_uint_data, v12_uv_stream_bytes,
    v12_uv_stream_data, v12_vector3_stream_bytes, v12_vector3_stream_data,
};
use crate::anim_data::v1::properties::TrackTypeV1;
use crate::bytes::{u16_le_bytes, u32_le_bytes};
use crate::float_bits::F32_ONE_BITS;

verus! {

/// The name of a version 1.2 property. `TrackName` stands for the name of the track.
#[derive(Debug, Clone, Copy, PartialEq, Eq)]
pub enum V12PropertyName {
    Scale,
    Rotate,
    Translate,
    CompensateScale,
    Visibility,
    UvTransform,
    TrackName,
}

/// A property of a version 1.2 track and the index of the buffer that holds its value.
#[derive(Debug, Clone, Copy, PartialEq, Eq)]
pub struct V12Property {
    pub name: V12PropertyName,
    pub buffer_index: usize,
}

/// A version 1.2 track: the name of its node, its kind and its properties.
#[derive(Debug, Clone)]
pub struct V12Track {
    pub name: String,
    pub track_type: TrackTypeV1,
    pub properties: Vec<V12Property>,
}

/// The results of the floating-point tests on the values of one track.
#[derive(Debug, Clone)]
pub struct V12FloatTests {
    /// Whether some scale, rotation and translation differs from the identity.
    pub changed: [bool; 3],
    /// Whether every scale, normalized rotation and translation is near the first.
    pub constant: [bool; 3],
    /// The rotations normalized and, frame by frame, turned into the hemisphere of the
    /// previous rotation.
    pub rotations: Vec<[u32; 4]>,
    /// Whether every UV transform is near the first.
    pub uv_constant: bool,
}

/// A track to write: the type of its group, the name of its node and the track.
pub type TrackEntry = (GroupType, Seq<char>, TrackData);

/// The tracks of a node in order.
pub open spec fn node_entries(group_type: GroupType, node: NodeData) -> Seq<TrackEntry> {
    Seq::new(node.tracks@.len(), |t: int| (group_type, node.name@, node.tracks@[t]))
}

/// The tracks of the nodes in order.
pub open spec fn nodes_entries(group_type: GroupType, nodes: Seq<NodeData>) -> Seq<TrackEntry>
    decreases nodes.len(),
{
    if nodes.len() == 0 {
        Seq::empty()
    } else {
        nodes_entries(group_type, nodes.drop_last()) + node_entries(group_type, nodes.last())
    }
}

/// The tracks of the groups' nodes in order.
pub open spec fn groups_entries(groups: Seq<GroupData>) -> Seq<TrackEntry>
    decreases groups.len(),
{
    if groups.len() == 0 {
        Seq::empty()
    } else {
        groups_entries(groups.drop_last()) + nodes_entries(groups.last().group_type, groups.last().nodes@)
    }
}

/// A 16-bit property value.
pub open spec fn uint_bytes(value: u16) -> Seq<u8> {
    u32_le_bytes(0x1013) + u16_le_bytes(value)
}

/// A constant property value: the code and the words.
pub open spec fn constant_bytes(code: u32, words: Seq<u32>) -> Seq<u8> {
    u32_le_bytes(code) + words_le_bytes(words)
}

/// Vectors as a constant when there is one or all are near the first, else as a stream.
pub open spec fn vector3_property_bytes(values: Seq<[u32; 3]>, constant: bool) -> Seq<u8> {
    if values.len() == 1 || constant {
        constant_bytes(0x3003, values[0]@)
    } else {
        v12_vector3_stream_bytes(values)
    }
}

/// Rotations: with compression a single rotation as given; otherwise the normalized
/// rotations as a constant when all are near the first, else as a stream.
pub open spec fn rotation_property_bytes(raw: Seq<[u32; 4]>, normalized: Seq<[u32; 4]>, constant: bool, compressed: bool) -> Seq<u8> {
    if compressed && raw.len() == 1 {
        constant_bytes(0x4003, raw[0]@)
    } else if constant {
        constant_bytes(0x4003, normalized[0]@)
    } else {
        v12_quaternion_stream_bytes(normalized)
    }
}

/// UV transforms without compression: a constant when there is one or all are near the
/// first, else a stream.
pub open spec fn uv_property_bytes(values: Seq<UvTransform>, constant: bool) -> Seq<u8> {
    if values.len() == 1 || constant {
        constant_bytes(0x5014, uv_words(values.take(1)))
    } else {
        v12_uv_stream_bytes(values)
    }
}

/// The properties of a non-empty transform track, in order: with compression the scale,
/// rotation and translation that differ from the identity, then the scale compensation and
/// the visibility; without, the scale, rotation and translation, then the scale
/// compensation when the track compensates.
pub open spec fn transform_properties(values: Seq<Transform>, compensate_scale: bool, tests: V12FloatTests, compressed: bool) -> Seq<(V12PropertyName, Seq<u8>)> {
    let scales = values.map_values(|t: Transform| t.scale);
    let rotations = values.map_values(|t: Transform| t.rotation);
    let translations = values.map_values(|t: Transform| t.translation);
    let scale = (V12PropertyName::Scale, vector3_property_bytes(scales, tests.constant[0]));
    let rotate = (V12PropertyName::Rotate, rotation_property_bytes(rotations, tests.rotations@, tests.constant[1], compressed));
    let translate = (V12PropertyName::Translate, vector3_property_bytes(translations, tests.constant[2]));
    if compressed {
        (if tests.changed[0] { seq![scale] } else { Seq::empty() })
            + (if tests.changed[1] { seq![rotate] } else { Seq::empty() })
            + (if tests.changed[2] { seq![translate] } else { Seq::empty() })
            + seq![
                (V12PropertyName::CompensateScale, uint_bytes(if compensate_scale { 0x7FFFu16 } else { 0u16 })),
                (V12PropertyName::Visibility, uint_bytes(0x7FFF)),
            ]
    } else {
        seq![scale, rotate, translate]
            + (if compensate_scale { seq![(V12PropertyName::CompensateScale, constant_bytes(0x1003, seq![F32_ONE_BITS]))] } else { Seq::empty() })
    }
}

/// The properties of a track in a group of `group_type`: those of its values when they
/// match the kind of track that the group writes and are not empty. Values of another kind
/// give nothing with compression and, without, a property named by the track with an
/// empty constant.
pub open spec fn track_properties(group_type: GroupType, track: TrackData, tests: V12FloatTests, compressed: bool) -> Seq<(V12PropertyName, Seq<u8>)> {
    match (track.values, v12_track_type_of(group_type)) {
        (TrackValues::Transform(v), TrackTypeV1::Transform) =>
            if v@.len() == 0 { Seq::empty() } else { transform_properties(v@, track.compensate_scale, tests, compressed) },
        (TrackValues::Boolean(v), TrackTypeV1::Visibility) =>
            if v@.len() == 0 {
                Seq::empty()
            } else {
                seq![(V12PropertyName::Visibility, if compressed { v12_compressed_bool_bytes(v@) } else { v12_uncompressed_bool_bytes(v@) })]
            },
        (TrackValues::UvTransform(v), TrackTypeV1::UvTransform) =>
            if v@.len() == 0 {
                Seq::empty()
            } else {
                seq![(V12PropertyName::UvTransform, if compressed { v12_compressed_uv_bytes(v@) } else { uv_property_bytes(v@, tests.uv_constant) })]
            },
        _ => if compressed { Seq::empty() } else { seq![(V12PropertyName::TrackName, u32_le_bytes(0))] },
    }
}

/// A track as written: the node name, the kind and the properties with their buffers.
pub open spec fn track_view(t: V12Track) -> (Seq<char>, TrackTypeV1, Seq<V12Property>) {
    (t.name@, t.track_type, t.properties@)
}

/// The tracks and buffers written for the tracks `entries` with the float tests `tests`:
/// each track in order with its node's name and its properties, the `k`-th property
/// written having buffer `k`, which holds the property's value. With compression a track
/// without properties is left out.
pub open spec fn assembled(entries: Seq<TrackEntry>, tests: Seq<V12FloatTests>, compressed: bool) -> (Seq<(Seq<char>, TrackTypeV1, Seq<V12Property>)>, Seq<Seq<u8>>)
    decreases entries.len(),
{
    if entries.len() == 0 {
        (Seq::empty(), Seq::empty())
    } else {
        let (tracks, buffers) = assembled(entries.drop_last(), tests, compressed);
        let e = entries.last();
        let props = track_properties(e.0, e.2, tests[entries.len() - 1], compressed);
        if compressed && props.len() == 0 {
            (tracks, buffers)
        } else {
            let written = Seq::new(props.len(), |i: int| V12Property { name: props[i].0, buffer_index: (buffers.len() + i) as usize });
            (tracks.push((e.1, v12_track_type_of(e.0), written)), buffers + props.map_values(|p: (V12PropertyName, Seq<u8>)| p.1))
        }
    }
}

/// The rotations of a non-empty transform track in a transform group have normalized
/// counterparts, one per frame.
pub open spec fn tests_fit(entries: Seq<TrackEntry>, tests: Seq<V12FloatTests>) -> bool {
    &&& tests.len() == entries.len()
    &&& forall|k: int| 0 <= k < entries.len() ==> match (#[trigger] entries[k]).2.values {
        TrackValues::Transform(v) => tests[k].rotations@.len() == v@.len(),
        _ => true,
    }
}

/// The names and values of properties, by their views.
pub open spec fn property_views(names: Seq<V12PropertyName>, values: Seq<Vec<u8>>) -> Seq<(V12PropertyName, Seq<u8>)> {
    Seq::new(names.len(), |i: int| (names[i], values[i]@))
}

/// Property names and values being collected, kept the same length.
struct PropertyList {
    names: Vec<V12PropertyName>,
    values: Vec<Vec<u8>>,
}

impl PropertyList {
    fn push(&mut self, name: V12PropertyName, value: Vec<u8>)
        requires
            old(self).names@.len() == old(self).values@.len(),
        ensures
            final(self).names@ == old(self).names@.push(name),
            final(self).values@ == old(self).values@.push(value),
    {
        self.names.push(name);
        self.values.push(value);
    }
}

/// The scales, rotations and translations of transforms.
fn transform_parts(values: &Vec<Transform>) -> (r: (Vec<[u32; 3]>, Vec<[u32; 4]>, Vec<[u32; 3]>))
    ensures
        r.0@ == values@.map_values(|t: Transform| t.scale),
        r.1@ == values@.map_values(|t: Transform| t.rotation),
        r.2@ == values@.map_values(|t: Transform| t.translation),
{
    let mut scales: Vec<[u32; 3]> = Vec::new();
    let mut rotations: Vec<[u32; 4]> = Vec::new();
    let mut translations: Vec<[u32; 3]> = Vec::new();
    let mut i: usize = 0;
    while i < values.len()
        invariant
            i <= values@.len(),
            scales@ =~= values@.take(i as int).map_values(|t: Transform| t.scale),
            rotations@ =~= values@.take(i as int).map_values(|t: Transform| t.rotation),
            translations@ =~= values@.take(i as int).map_values(|t: Transform| t.translation),
        decreases values@.len() - i,
    {
        scales.push(values[i].scale);
        rotations.push(values[i].rotation);
        translations.push(values[i].translation);
        proof {
            assert(values@.take(i + 1) =~= values@.take(i as int).push(values@[i as int]));
        }
        i = i + 1;
    }
    proof {
        assert(values@.take(i as int) =~= values@);
    }
    (scales, rotations, translations)
}

/// Vectors as a constant when there is one or all are near the first, else as a stream.
fn vector3_property(values: &Vec<[u32; 3]>, constant: bool) -> (r: Vec<u8>)
    requires
        values@.len() >= 1,
    ensures
        r@ == vector3_property_bytes(values@, constant),
{
    if values.len() == 1 || constant {
        v12_constant_data(0x3003, &values[0])
    } else {
        v12_vector3_stream_data(values.as_slice())
    }
}

/// Rotations as [`rotation_property_bytes`] writes them.
fn rotation_property(raw: &Vec<[u32; 4]>, normalized: &Vec<[u32; 4]>, constant: bool, compressed: bool) -> (r: Vec<u8>)
    requires
        raw@.len() >= 1,
        normalized@.len() == raw@.len(),
    ensures
        r@ == rotation_property_bytes(raw@, normalized@, constant, compressed),
{
    if compressed && raw.len() == 1 {
        v12_constant_data(0x4003, &raw[0])
    } else if constant {
        v12_constant_data(0x4003, &normalized[0])
    } else {
        v12_quaternion_stream_data(normalized.as_slice())
    }
}

/// UV transforms as [`uv_property_bytes`] writes them.
fn uv_property(values: &Vec<UvTransform>, constant: bool) -> (r: Vec<u8>)
    requires
        values@.len() >= 1,
    ensures
        r@ == uv_property_bytes(values@, constant),
{
    if values.len() == 1 || constant {
        let words = uv_transform_words(&values.as_slice()[0..1]);
        proof {
            assert(values@.subrange(0, 1) =~= values@.take(1));
        }
        v12_constant_data(0x5014, words.as_slice())
    } else {
        v12_uv_stream_data(values.as_slice())
    }
}

/// The properties of a track in a group of `group_type`, as [`track_properties`] gives them.
fn properties_of(group_type: GroupType, track: &TrackData, tests: &V12FloatTests, compressed: bool) -> (r: (Vec<V12PropertyName>, Vec<Vec<u8>>))
    requires
        track.values matches TrackValues::Transform(v) ==> tests.rotations@.len() == v@.len(),
    ensures
        r.0@.len() == r.1@.len(),
        property_views(r.0@, r.1@) == track_properties(group_type, *track, *tests, compressed),
{
    let track_type = v12_track_type(group_type);
    let mut props = PropertyList { names: Vec::new(), values: Vec::new() };
    match (&track.values, track_type) {
        (TrackValues::Transform(v), TrackTypeV1::Transform) => {
            if v.len() > 0 {
                let (scales, rotations, translations) = transform_parts(v);
                let scale = vector3_property(&scales, tests.constant[0]);
                let rotate = rotation_property(&rotations, &tests.rotations, tests.constant[1], compressed);
                let translate = vector3_property(&translations, tests.constant[2]);
                if compressed {
                    if tests.changed[0] {
                        props.push(V12PropertyName::Scale, scale);
                    }
                    if tests.changed[1] {
                        props.push(V12PropertyName::Rotate, rotate);
                    }
                    if tests.changed[2] {
                        props.push(V12PropertyName::Translate, translate);
                    }
                    props.push(V12PropertyName::CompensateScale, v12_uint_data(if track.compensate_scale { 0x7FFFu16 } else { 0u16 }));
                    props.push(V12PropertyName::Visibility, v12_uint_data(0x7FFF));
                } else {
                    props.push(V12PropertyName::Scale, scale);
                    props.push(V12PropertyName::Rotate, rotate);
                    props.push(V12PropertyName::Translate, translate);
                    if track.compensate_scale {
                        let one: [u32; 1] = [F32_ONE_BITS];
                        props.push(V12PropertyName::CompensateScale, v12_constant_data(0x1003, &one));
                        assert(one@ =~= seq![F32_ONE_BITS]);
                    }
                }
            }
        },
        (TrackValues::Boolean(v), TrackTypeV1::Visibility) => {
            if v.len() > 0 {
                let data = if compressed {
                    match create_v12_compressed_bool_data(v.as_slice()) { Ok(d) => d, Err(_) => Vec::new() }
                } else {
                    match create_v12_uncompressed_bool_data(v.as_slice()) { Ok(d) => d, Err(_) => Vec::new() }
                };
                props.push(V12PropertyName::Visibility, data);
            }
        },
        (TrackValues::UvTransform(v), TrackTypeV1::UvTransform) => {
            if v.len() > 0 {
                let data = if compressed {
                    match create_v12_compressed_uv_data(v.as_slice()) { Ok(d) => d, Err(_) => Vec::new() }
                } else {
                    uv_property(v, tests.uv_constant)
                };
                props.push(V12PropertyName::UvTransform, data);
            }
        },
        _ => {
            if !compressed {
                props.push(V12PropertyName::TrackName, v12_constant_data(0, &[]));
            }
        },
    }
    proof {
        assert(property_views(props.names@, props.values@) =~= track_properties(group_type, *track, *tests, compressed));
    }
    (props.names, props.values)
}

/// Appends the track `track` of the node `node_name` in a group of `group_type`, and its
/// properties' buffers.
fn append_track(
    tracks: &mut Vec<V12Track>,
    buffers: &mut Vec<Vec<u8>>,
    group_type: GroupType,
    node_name: &String,
    track: &TrackData,
    tests: &V12FloatTests,
    compressed: bool,
    Ghost(entries): Ghost<Seq<TrackEntry>>,
    Ghost(all_tests): Ghost<Seq<V12FloatTests>>,
)
    requires
        track.values matches TrackValues::Transform(v) ==> tests.rotations@.len() == v@.len(),
        all_tests.len() > entries.len(),
        all_tests[entries.len() as int] == *tests,
        old(tracks)@.map_values(|t: V12Track| track_view(t)) == assembled(entries, all_tests, compressed).0,
        old(buffers)@.map_values(|b: Vec<u8>| b@) == assembled(entries, all_tests, compressed).1,
        old(buffers)@.len() + 8 <= usize::MAX,
    ensures
        final(tracks)@.map_values(|t: V12Track| track_view(t)) == assembled(entries.push((group_type, node_name@, *track)), all_tests, compressed).0,
        final(buffers)@.map_values(|b: Vec<u8>| b@) == assembled(entries.push((group_type, node_name@, *track)), all_tests, compressed).1,
        final(buffers)@.len() <= old(buffers)@.len() + 8,
{
    let e: Ghost<TrackEntry> = Ghost((group_type, node_name@, *track));
    proof {
        assert(entries.push(e@).drop_last() =~= entries);
    }
    let (names, mut values) = properties_of(group_type, track, tests, compressed);
    let ghost pv = property_views(names@, values@);
    assert(names@.len() <= 8) by {
        assert(pv.len() == names@.len());
    }
    if compressed && names.len() == 0 {
        return;
    }
    let start = buffers.len();
    let ghost old_tracks = tracks@;
    let ghost old_buffers = buffers@;
    let ghost old_values = values@;
    let mut properties: Vec<V12Property> = Vec::new();
    let mut i: usize = 0;
    while i < names.len()
        invariant
            pv == property_views(names@, old_values),
            names@.len() == old_values.len(),
            names@.len() <= 8,
            start == old_buffers.len(),
            start + 8 <= usize::MAX,
            i <= names@.len(),
            properties@ =~= Seq::new(i as nat, |j: int| V12Property { name: pv[j].0, buffer_index: (start + j) as usize }),
        decreases names@.len() - i,
    {
        properties.push(V12Property { name: names[i], buffer_index: start + i });
        i = i + 1;
    }
    buffers.append(&mut values);
    tracks.push(V12Track { name: node_name.clone(), track_type: v12_track_type(group_type), properties });
    proof {
        let (ts, bs) = assembled(entries, all_tests, compressed);
        assert(tracks@.map_values(|t: V12Track| track_view(t)) =~= old_tracks.map_values(|t: V12Track| track_view(t)).push(
            (node_name@, v12_track_type_of(group_type), Seq::new(pv.len(), |j: int| V12Property { name: pv[j].0, buffer_index: (bs.len() + j) as usize }))));
        assert(buffers@ == old_buffers + old_values);
        assert(buffers@.map_values(|b: Vec<u8>| b@) =~= bs + pv.map_values(|p: (V12PropertyName, Seq<u8>)| p.1));
    }
}

/// Assembles the tracks of a version 1.2 animation and the buffers of their properties:
/// a track for each track of each node of each group, in that order, named by its node,
/// with the properties that [`track_properties`] gives, the `k`-th property written having
/// buffer `k`, which holds its value. With `compressed`, tracks without properties are left
/// out. `tests` holds the results of the floating-point tests on each track's values, in
/// the same order.
///
/// Fails with [`Error::InvalidFinalFrameIndex`] when the final frame index is negative or
/// not a number.
fn assemble_tracks(data: &AnimData, tests: &Vec<V12FloatTests>, compressed: bool) -> (r: Result<(Vec<V12Track>, Vec<Vec<u8>>), Error>)
    requires
        tests_fit(groups_entries(data.groups@), tests@),
        8 * tests@.len() + 8 <= usize::MAX,
    ensures
        !f32_bits_nonnegative(data.final_frame_index) ==> (r matches Err(Error::InvalidFinalFrameIndex { final_frame_index: f })
            && f == data.final_frame_index),
        f32_bits_nonnegative(data.final_frame_index) ==> (r matches Ok((tracks, buffers))
            && tracks@.map_values(|t: V12Track| track_view(t)) == assembled(groups_entries(data.groups@), tests@, compressed).0
            && buffers@.map_values(|b: Vec<u8>| b@) == assembled(groups_entries(data.groups@), tests@, compressed).1),
{
    match checked_final_frame_index(data.final_frame_index) {
        Ok(_) => {},
        Err(e) => return Err(e),
    }
    let ghost all = groups_entries(data.groups@);
    let mut tracks: Vec<V12Track> = Vec::new();
    let mut buffers: Vec<Vec<u8>> = Vec::new();
    let mut k: usize = 0;
    let mut g: usize = 0;
    proof {
        assert(data.groups@.take(0) =~= Seq::<GroupData>::empty());
        assert(tracks@.map_values(|t: V12Track| track_view(t)) =~= Seq::empty());
        assert(buffers@.map_values(|b: Vec<u8>| b@) =~= Seq::empty());
    }
    while g < data.groups.len()
        invariant
            all == groups_entries(data.groups@),
            tests_fit(all, tests@),
            8 * tests@.len() + 8 <= usize::MAX,
            g <= data.groups@.len(),
            k == groups_entries(data.groups@.take(g as int)).len(),
            all.take(k as int) == groups_entries(data.groups@.take(g as int)),
            k <= all.len(),
            buffers@.len() <= 8 * k,
            tracks@.map_values(|t: V12Track| track_view(t)) == assembled(all.take(k as int), tests@, compressed).0,
            buffers@.map_values(|b: Vec<u8>| b@) == assembled(all.take(k as int), tests@, compressed).1,
        decreases data.groups@.len() - g,
    {
        let group = &data.groups[g];
        proof {
            lemma_groups_entries_prefix(data.groups@, g as int);
        }
        let mut n: usize = 0;
        while n < group.nodes.len()
            invariant
                all == groups_entries(data.groups@),
                tests_fit(all, tests@),
                8 * tests@.len() + 8 <= usize::MAX,
                g < data.groups@.len(),
                *group == data.groups@[g as int],
                all.take(groups_entries(data.groups@.take(g as int + 1)).len() as int) == groups_entries(data.groups@.take(g as int + 1)),
                groups_entries(data.groups@.take(g as int + 1)).len() <= all.len(),
                groups_entries(data.groups@.take(g as int + 1)) == groups_entries(data.groups@.take(g as int)) + nodes_entries(group.group_type, group.nodes@),
                n <= group.nodes@.len(),
                k == groups_entries(data.groups@.take(g as int)).len() + nodes_entries(group.group_type, group.nodes@.take(n as int)).len(),
                all.take(k as int) == groups_entries(data.groups@.take(g as int)) + nodes_entries(group.group_type, group.nodes@.take(n as int)),
                k <= all.len(),
                buffers@.len() <= 8 * k,
                tracks@.map_values(|t: V12Track| track_view(t)) == assembled(all.take(k as int), tests@, compressed).0,
                buffers@.map_values(|b: Vec<u8>| b@) == assembled(all.take(k as int), tests@, compressed).1,
            decreases group.nodes@.len() - n,
        {
            let node = &group.nodes[n];
            proof {
                lemma_nodes_entries_prefix(group.group_type, group.nodes@, n as int);
            }
            let mut t: usize = 0;
            while t < node.tracks.len()
                invariant
                    all == groups_entries(data.groups@),
                    tests_fit(all, tests@),
                    8 * tests@.len() + 8 <= usize::MAX,
                    g < data.groups@.len(),
                    *group == data.groups@[g as int],
                    all.take(groups_entries(data.groups@.take(g as int + 1)).len() as int) == groups_entries(data.groups@.take(g as int + 1)),
                groups_entries(data.groups@.take(g as int + 1)).len() <= all.len(),
                    groups_entries(data.groups@.take(g as int + 1)) == groups_entries(data.groups@.take(g as int)) + nodes_entries(group.group_type, group.nodes@),
                    n < group.nodes@.len(),
                    *node == group.nodes@[n as int],
                    nodes_entries(group.group_type, group.nodes@.take(n as int + 1)) == nodes_entries(group.group_type, group.nodes@.take(n as int)) + node_entries(group.group_type, *node),
                    nodes_entries(group.group_type, group.nodes@.take(n as int + 1)).len() <= nodes_entries(group.group_type, group.nodes@).len(),
                    nodes_entries(group.group_type, group.nodes@).take(nodes_entries(group.group_type, group.nodes@.take(n as int + 1)).len() as int)
                        == nodes_entries(group.group_type, group.nodes@.take(n as int + 1)),
                    t <= node.tracks@.len(),
                    k == groups_entries(data.groups@.take(g as int)).len() + nodes_entries(group.group_type, group.nodes@.take(n as int)).len() + t,
                    all.take(k as int) == groups_entries(data.groups@.take(g as int)) + nodes_entries(group.group_type, group.nodes@.take(n as int))
                        + node_entries(group.group_type, *node).take(t as int),
                    k <= all.len(),
                    buffers@.len() <= 8 * k,
                    tracks@.map_values(|t: V12Track| track_view(t)) == assembled(all.take(k as int), tests@, compressed).0,
                    buffers@.map_values(|b: Vec<u8>| b@) == assembled(all.take(k as int), tests@, compressed).1,
                decreases node.tracks@.len() - t,
            {
                let ghost before = all.take(k as int);
                proof {
                    let prefix = groups_entries(data.groups@.take(g as int)) + nodes_entries(group.group_type, group.nodes@.take(n as int));
                    let whole = groups_entries(data.groups@.take(g as int + 1));
                    let ge_g = groups_entries(data.groups@.take(g as int));
                    let ne_all = nodes_entries(group.group_type, group.nodes@);
                    let ne_n1 = nodes_entries(group.group_type, group.nodes@.take(n as int + 1));
                    let ne_n = nodes_entries(group.group_type, group.nodes@.take(n as int));
                    let m = ne_n.len() + t + 1;
                    assert(m <= ne_n1.len());
                    assert(ne_all.take(m) =~= ne_n1.take(m)) by {
                        assert(ne_all.take(ne_n1.len() as int) == ne_n1);
                        assert forall|i: int| 0 <= i < m implies #[trigger] ne_all.take(m)[i] == ne_n1.take(m)[i] by {
                            assert(ne_all.take(ne_n1.len() as int)[i] == ne_all[i]);
                        }
                    }
                    assert(ne_n1.take(m) =~= ne_n + node_entries(group.group_type, *node).take(t + 1));
                    assert(whole.take((k + 1) as int) =~= ge_g + ne_all.take(m));
                    assert(whole.take((k + 1) as int) =~= prefix + node_entries(group.group_type, *node).take(t + 1));
                    assert(k + 1 <= whole.len());
                    assert(all.take((k + 1) as int) =~= whole.take((k + 1) as int)) by {
                        assert forall|i: int| 0 <= i < k + 1 implies #[trigger] all.take((k + 1) as int)[i] == whole.take((k + 1) as int)[i] by {
                            assert(all.take(whole.len() as int)[i] == all[i]);
                        }
                    }
                    assert(prefix.len() == k - t);
                    assert(all.take((k + 1) as int)[k as int] == all[k as int]);
                    assert((prefix + node_entries(group.group_type, *node).take(t + 1))[k as int] == node_entries(group.group_type, *node)[t as int]);
                    assert(all[k as int] == (group.group_type, node.name@, node.tracks@[t as int]));
                    assert(all.take((k + 1) as int) =~= before.push(all[k as int]));
                    assert(tests@.len() == all.len());
                    let ee = all[k as int];
                    assert(match ee.2.values { TrackValues::Transform(v) => tests@[k as int].rotations@.len() == v@.len(), _ => true });
                }
                append_track(&mut tracks, &mut buffers, group.group_type, &node.name, &node.tracks[t], &tests[k], compressed,
                    Ghost(before), Ghost(tests@));
                k = k + 1;
                t = t + 1;
            }
            proof {
                assert(node_entries(group.group_type, *node).take(t as int) =~= node_entries(group.group_type, *node));
            }
            n = n + 1;
        }
        proof {
            assert(group.nodes@.take(n as int) =~= group.nodes@);
        }
        g = g + 1;
    }
    proof {
        assert(data.groups@.take(g as int) =~= data.groups@);
        assert(all.take(k as int) =~= all);
    }
    Ok((tracks, buffers))
}

/// Splitting off the groups' last group splits off its tracks.
proof fn lemma_groups_entries_prefix(groups: Seq<GroupData>, g: int)
    requires
        0 <= g < groups.len(),
    ensures
        groups_entries(groups.take(g + 1)) == groups_entries(groups.take(g)) + nodes_entries(groups[g].group_type, groups[g].nodes@),
        groups_entries(groups.take(g + 1)).len() <= groups_entries(groups).len(),
        groups_entries(groups).take(groups_entries(groups.take(g + 1)).len() as int) == groups_entries(groups.take(g + 1)),
{
    assert(groups.take(g + 1).drop_last() =~= groups.take(g));
    lemma_groups_entries_take(groups, g + 1);
}

/// The tracks of the first `m` groups are the first tracks of all groups.
proof fn lemma_groups_entries_take(groups: Seq<GroupData>, m: int)
    requires
        0 <= m <= groups.len(),
    ensures
        groups_entries(groups.take(m)).len() <= groups_entries(groups).len(),
        groups_entries(groups).take(groups_entries(groups.take(m)).len() as int) == groups_entries(groups.take(m)),
    decreases groups.len() - m,
{
    if m == groups.len() {
        assert(groups.take(m) =~= groups);
        assert(groups_entries(groups).take(groups_entries(groups).len() as int) =~= groups_entries(groups));
    } else {
        lemma_groups_entries_take(groups, m + 1);
        assert(groups.take(m + 1).drop_last() =~= groups.take(m));
        let a = groups_entries(groups.take(m));
        let b = groups_entries(groups.take(m + 1));
        assert(b == a + nodes_entries(groups[m].group_type, groups[m].nodes@));
        assert(groups_entries(groups).take(a.len() as int) =~= b.take(a.len() as int));
        assert(b.take(a.len() as int) =~= a);
    }
}

/// Splitting off the nodes' last node splits off its tracks.
proof fn lemma_nodes_entries_prefix(group_type: GroupType, nodes: Seq<NodeData>, n: int)
    requires
        0 <= n < nodes.len(),
    ensures
        nodes_entries(group_type, nodes.take(n + 1)) == nodes_entries(group_type, nodes.take(n)) + node_entries(group_type, nodes[n]),
        nodes_entries(group_type, nodes.take(n + 1)).len() <= nodes_entries(group_type, nodes).len(),
        nodes_entries(group_type, nodes).take(nodes_entries(group_type, nodes.take(n + 1)).len() as int) == nodes_entries(group_type, nodes.take(n + 1)),
{
    assert(nodes.take(n + 1).drop_last() =~= nodes.take(n));
    lemma_nodes_entries_take(group_type, nodes, n + 1);
}

/// The tracks of the first `m` nodes are the first tracks of all nodes.
proof fn lemma_nodes_entries_take(group_type: GroupType, nodes: Seq<NodeData>, m: int)
    requires
        0 <= m <= nodes.len(),
    ensures
        nodes_entries(group_type, nodes.take(m)).len() <= nodes_entries(group_type, nodes).len(),
        nodes_entries(group_type, nodes).take(nodes_entries(group_type, nodes.take(m)).len() as int) == nodes_entries(group_type, nodes.take(m)),
    decreases nodes.len() - m,
{
    if m == nodes.len() {
        assert(nodes.take(m) =~= nodes);
        assert(nodes_entries(group_type, nodes).take(nodes_entries(group_type, nodes).len() as int) =~= nodes_entries(group_type, nodes));
    } else {
        lemma_nodes_entries_take(group_type, nodes, m + 1);
        assert(nodes.take(m + 1).drop_last() =~= nodes.take(m));
        let a = nodes_entries(group_type, nodes.take(m));
        let b = nodes_entries(group_type, nodes.take(m + 1));
        assert(b == a + node_entries(group_type, nodes[m]));
        assert(nodes_entries(group_type, nodes).take(a.len() as int) =~= b.take(a.len() as int));
        assert(b.take(a.len() as int) =~= a);
    }
}

/// Assembles the tracks of a version 1.2 animation with compressed formats, leaving out
/// tracks without properties: see [`assemble_tracks`].
pub fn assemble_tracks_v12(data: &AnimData, tests: &Vec<V12FloatTests>) -> (r: Result<(Vec<V12Track>, Vec<Vec<u8>>), Error>)
    requires
        tests_fit(groups_entries(data.groups@), tests@),
        8 * tests@.len() + 8 <= usize::MAX,
    ensures
        !f32_bits_nonnegative(data.final_frame_index) ==> (r matches Err(Error::InvalidFinalFrameIndex { final_frame_index: f })
            && f == data.final_frame_index),
        f32_bits_nonnegative(data.final_frame_index) ==> (r matches Ok((tracks, buffers))
            && tracks@.map_values(|t: V12Track| track_view(t)) == assembled(groups_entries(data.groups@), tests@, true).0
            && buffers@.map_values(|b: Vec<u8>| b@) == assembled(groups_entries(data.groups@), tests@, true).1),
{
    assemble_tracks(data, tests, true)
}

/// Assembles the tracks of a version 1.2 animation with only constant and stream formats,
/// keeping every track: see [`assemble_tracks`].
pub fn assemble_tracks_v12_uncompressed(data: &AnimData, tests: &Vec<V12FloatTests>) -> (r: Result<(Vec<V12Track>, Vec<Vec<u8>>), Error>)
    requires
        tests_fit(groups_entries(data.groups@), tests@),
        8 * tests@.len() + 8 <= usize::MAX,
    ensures
        !f32_bits_nonnegative(data.final_frame_index) ==> (r matches Err(Error::InvalidFinalFrameIndex { final_frame_index: f })
            && f == data.final_frame_index),
        f32_bits_nonnegative(data.final_frame_index) ==> (r matches Ok((tracks, buffers))
            && tracks@.map_values(|t: V12Track| track_view(t)) == assembled(groups_entries(data.groups@), tests@, false).0
            && buffers@.map_values(|b: Vec<u8>| b@) == assembled(groups_entries(data.groups@), tests@, false).1),
{
    assemble_tracks(data, tests, false)
}

} // verus!
