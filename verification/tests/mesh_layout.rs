use ssbh_data::mesh_data::error::Error;
use ssbh_data::mesh_data::layout::{
    create_mesh_objects, create_rigging_buffers, rigging_groups, MeshData, SkinWeights,
};
use ssbh_data::mesh_data::{
    AttributeData, BoneInfluence, DrawElementType, MeshObjectData, VectorData, VertexWeight,
};

fn positions(count: usize) -> Vec<AttributeData> {
    vec![AttributeData {
        name: String::new(),
        data: VectorData::Vector3(vec![[0.0f32.to_bits(); 3]; count]),
    }]
}

fn skinned_object(bone_name: &str, vertex_index: u32) -> MeshObjectData {
    MeshObjectData {
        positions: positions(12),
        bone_influences: vec![BoneInfluence {
            bone_name: bone_name.to_owned(),
            vertex_weights: vec![VertexWeight {
                vertex_index,
                vertex_weight: 1.0f32.to_bits(),
            }],
        }],
        ..Default::default()
    }
}

// Float3 positions in buffer 0 and 32 bytes per vertex in buffer 2.
const STRIDES: [u32; 4] = [12, 0, 32, 0];

#[test]
fn create_empty_mesh_1_10() {
    let mesh = MeshData {
        major_version: 1,
        minor_version: 10,
        objects: Vec::new(),
    };
    let mesh = mesh.create_mesh(&Vec::new()).unwrap();
    assert!(mesh.rigging_buffers.is_empty());
    let layout = mesh.layout;
    assert!(layout.objects.is_empty());
    assert!(layout.index_buffer.is_empty());
    assert_eq!([0, 0, 0, 0], layout.vertex_buffer_sizes);
}

#[test]
fn create_empty_mesh_1_8() {
    let mesh = MeshData {
        major_version: 1,
        minor_version: 8,
        objects: Vec::new(),
    };
    let mesh = mesh.create_mesh(&Vec::new()).unwrap();
    assert!(mesh.rigging_buffers.is_empty());
    let layout = mesh.layout;
    assert!(layout.objects.is_empty());
    assert!(layout.index_buffer.is_empty());
}

#[test]
fn create_empty_mesh_v_1_9() {
    let mesh = MeshData {
        major_version: 1,
        minor_version: 9,
        objects: Vec::new(),
    };
    let mesh = mesh.create_mesh(&Vec::new()).unwrap();
    assert!(mesh.rigging_buffers.is_empty());
    let layout = mesh.layout;
    assert!(layout.objects.is_empty());
    assert!(layout.index_buffer.is_empty());
}

#[test]
fn create_empty_mesh_invalid_version() {
    let mesh = MeshData {
        major_version: 2,
        minor_version: 301,
        objects: Vec::new(),
    };
    let result = mesh.create_mesh(&Vec::new());
    assert!(matches!(
        result,
        Err(Error::UnsupportedVersion {
            major_version: 2,
            minor_version: 301
        })
    ));
}

#[test]
fn create_mesh_1_10() {
    let mesh = MeshData {
        major_version: 1,
        minor_version: 10,
        objects: vec![
            skinned_object("a", u16::MAX as u32),
            skinned_object("b", u16::MAX as u32),
        ],
    };
    let layout = mesh.create_mesh(&vec![STRIDES, STRIDES]).unwrap().layout;

    // Version 1.10 reserves offsets in buffer 2 but writes no data to it.
    assert_eq!([4 * 3 * 12 * 2, 0, 0, 0], layout.vertex_buffer_sizes);
    assert_eq!([0, 0, 0, 0], layout.objects[0].vertex_buffer_offsets);
    assert_eq!([12, 0, 0, 0], layout.objects[0].strides);
    assert_eq!([12 * 12, 0, 32 * 12, 0], layout.objects[1].vertex_buffer_offsets);
    assert_eq!([12, 0, 0, 0], layout.objects[1].strides);
    assert!(layout.objects[0].use_vertex_skinning);
    assert_eq!(1, layout.objects[0].max_influences);
}

#[test]
fn create_mesh_1_8() {
    let mesh = MeshData {
        major_version: 1,
        minor_version: 8,
        objects: vec![
            skinned_object("a", u32::MAX),
            skinned_object("b", u32::MAX),
        ],
    };
    let layout = mesh.create_mesh(&vec![STRIDES, STRIDES]).unwrap().layout;

    assert_eq!([4 * 3 * 12 * 2, 0, 32 * 12 * 2, 0], layout.vertex_buffer_sizes);
    assert_eq!([0, 0, 0, 0], layout.objects[0].vertex_buffer_offsets);
    assert_eq!([12, 0, 32, 0], layout.objects[0].strides);
    assert_eq!([12 * 12, 0, 32 * 12, 0], layout.objects[1].vertex_buffer_offsets);
    assert_eq!([12, 0, 32, 0], layout.objects[1].strides);
}

#[test]
fn create_mesh_v_1_9() {
    let mesh = MeshData {
        major_version: 1,
        minor_version: 9,
        objects: vec![
            skinned_object("a", u32::MAX),
            skinned_object("b", u32::MAX),
        ],
    };
    let layout = mesh.create_mesh(&vec![STRIDES, STRIDES]).unwrap().layout;

    assert_eq!([4 * 3 * 12 * 2, 0, 32 * 12 * 2, 0], layout.vertex_buffer_sizes);
    assert_eq!([12 * 12, 0, 32 * 12, 0], layout.objects[1].vertex_buffer_offsets);
    assert_eq!([12, 0, 32, 0], layout.objects[1].strides);
}

#[test]
fn mesh_layout_index_buffer() {
    let first = MeshObjectData {
        vertex_indices: vec![0, 1, 2],
        positions: positions(3),
        ..Default::default()
    };
    let second = MeshObjectData {
        vertex_indices: vec![0, 1, 70000],
        positions: positions(70001),
        ..Default::default()
    };
    let layout = create_mesh_objects(&vec![first, second], &vec![STRIDES, STRIDES], true).unwrap();
    assert_eq!(
        vec![0, 0, 1, 0, 2, 0, 0, 0, 0, 0, 1, 0, 0, 0, 0x70, 0x11, 1, 0],
        layout.index_buffer
    );
    assert_eq!(0, layout.objects[0].index_buffer_offset);
    assert_eq!(6, layout.objects[1].index_buffer_offset);
    assert_eq!(DrawElementType::UnsignedShort, layout.objects[0].draw_element_type);
    assert_eq!(DrawElementType::UnsignedInt, layout.objects[1].draw_element_type);
    assert_eq!(3, layout.objects[0].vertex_index_count);
    assert_eq!(70001, layout.objects[1].vertex_count);
    assert!(!layout.objects[0].use_vertex_skinning);
    assert_eq!(0, layout.objects[0].max_influences);
}

#[test]
fn mesh_layout_reports_first_invalid_object() {
    let valid = MeshObjectData {
        vertex_indices: vec![0, 1, 1],
        positions: positions(2),
        ..Default::default()
    };
    let quads = MeshObjectData {
        vertex_indices: vec![0, 2, 1, 0, 2, 1, 0, 0],
        positions: positions(2),
        ..Default::default()
    };
    let out_of_range = MeshObjectData {
        vertex_indices: vec![0, 2, 1],
        positions: positions(2),
        ..Default::default()
    };
    let result = create_mesh_objects(
        &vec![valid, quads, out_of_range],
        &vec![STRIDES, STRIDES, STRIDES],
        false,
    );
    assert!(matches!(
        result,
        Err(Error::NonTriangulatedFaces {
            vertex_index_count: 8
        })
    ));
}

#[test]
fn create_mesh_1_10_too_many_vertices() {
    let mesh = MeshData {
        major_version: 1,
        minor_version: 10,
        objects: vec![MeshObjectData {
            positions: positions(3),
            bone_influences: vec![BoneInfluence {
                bone_name: "a".to_owned(),
                vertex_weights: vec![VertexWeight {
                    vertex_index: u16::MAX as u32 + 1,
                    vertex_weight: 1.0f32.to_bits(),
                }],
            }],
            ..Default::default()
        }],
    };
    let result = mesh.create_mesh(&vec![STRIDES]);
    assert!(matches!(
        result,
        Err(Error::SkinWeightVertexIndexExceedsLimit {
            vertex_index: 65536,
            limit: 65535,
            major_version: 1,
            minor_version: 10,
        })
    ));
}

#[test]
fn create_rigging_buffers_per_object() {
    let objects = vec![
        MeshObjectData {
            name: "b".to_owned(),
            subindex: 2,
            ..skinned_object("bone", 3)
        },
        MeshObjectData {
            name: "a".to_owned(),
            ..Default::default()
        },
    ];
    let groups = rigging_groups(&objects, true).unwrap();
    assert_eq!(2, groups.len());
    assert_eq!("b", groups[0].mesh_object_name);
    assert_eq!(2, groups[0].mesh_object_subindex);
    assert_eq!(1, groups[0].max_influences);
    assert_eq!("bone", groups[0].buffers[0].bone_name);
    assert!(matches!(&groups[0].buffers[0].data, SkinWeights::V10(bytes) if bytes == &vec![3, 0, 0, 0, 0x80, 0x3f]));
    assert_eq!(0, groups[1].max_influences);
    assert!(groups[1].buffers.is_empty());

    let groups = rigging_groups(&objects, false).unwrap();
    assert!(matches!(&groups[0].buffers[0].data, SkinWeights::V8(weights) if weights.len() == 1 && weights[0].vertex_index == 3));
}

#[test]
fn create_rigging_buffers_sorted_by_name_and_subindex() {
    let object = |name: &str, subindex: u64| MeshObjectData {
        name: name.to_owned(),
        subindex,
        ..Default::default()
    };
    let objects = vec![
        object("b", 1),
        object("a", 2),
        object("ab", 0),
        object("a", 1),
        object("B", 5),
    ];
    let groups = create_rigging_buffers(&objects, false).unwrap();
    let keys: Vec<(String, u64)> = groups
        .iter()
        .map(|g| (g.mesh_object_name.clone(), g.mesh_object_subindex))
        .collect();
    assert_eq!(
        vec![
            ("B".to_owned(), 5),
            ("a".to_owned(), 1),
            ("a".to_owned(), 2),
            ("ab".to_owned(), 0),
            ("b".to_owned(), 1),
        ],
        keys
    );
}
