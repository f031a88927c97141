use ssbh_data::mesh_data::error::{AttributeError, Error};
use ssbh_data::mesh_data::{
    calculate_max_influences, calculate_offset_stride, BoneInfluence, convert_indices, create_vertex_weights_v10, draw_element_type, read_vertex_weights_v10, write_vertex_indices,
    AttributeData, AttributeDataTypeV10, AttributeDataTypeV8, DrawElementType, MeshObjectData, VectorData,
    VertexIndices, VertexWeight,
};

fn vector2(count: usize) -> AttributeData {
    AttributeData {
        name: String::new(),
        data: VectorData::Vector2(vec![[0.0f32.to_bits(), 0.0f32.to_bits()]; count]),
    }
}

#[test]
fn create_vertex_weights_mesh_v1_10() {
    // Version 1.10 writes the weights to a byte array.
    // u16 for index and f32 for weight.
    let weights = vec![
        VertexWeight {
            vertex_index: 0,
            vertex_weight: 0.0f32.to_bits(),
        },
        VertexWeight {
            vertex_index: 1,
            vertex_weight: 1.0f32.to_bits(),
        },
    ];

    let result = create_vertex_weights_v10(&weights).unwrap();
    assert_eq!(result, vec![0x00, 0x00, 0x00, 0x00, 0x00, 0x00, 0x01, 0x00, 0x00, 0x00, 0x80, 0x3f]);
}

#[test]
fn create_vertex_weights_index_exceeds_limit() {
    let weights = vec![
        VertexWeight {
            vertex_index: 65535,
            vertex_weight: 0,
        },
        VertexWeight {
            vertex_index: 65536,
            vertex_weight: 0,
        },
        VertexWeight {
            vertex_index: 70000,
            vertex_weight: 0,
        },
    ];
    assert!(matches!(
        create_vertex_weights_v10(&weights),
        Err(Error::SkinWeightVertexIndexExceedsLimit {
            vertex_index: 65536,
            limit: 65535,
            major_version: 1,
            minor_version: 10
        })
    ));
}

#[test]
fn draw_element_type_u16() {
    // The indices are always stored as u32 by the object data wrapper type.
    // In this case, it's safe to convert to a smaller type.
    assert_eq!(
        VertexIndices::UnsignedShort(vec![0, 1, u16::MAX]),
        convert_indices(&[0, 1, u16::MAX as u32])
    )
}

#[test]
fn draw_element_type_empty() {
    assert_eq!(VertexIndices::UnsignedShort(Vec::new()), convert_indices(&[]))
}

#[test]
fn draw_element_type_u32() {
    // Add elements not representable by u16.
    assert_eq!(
        VertexIndices::UnsignedInt(vec![0, 1, u16::MAX as u32 + 1]),
        convert_indices(&[0, 1, u16::MAX as u32 + 1])
    )
}

#[test]
fn index_buffer_layout() {
    let short = convert_indices(&[1, 258]);
    assert_eq!(DrawElementType::UnsignedShort, draw_element_type(&short));
    let mut buffer = Vec::new();
    write_vertex_indices(&short, &mut buffer);
    assert_eq!(vec![1, 0, 2, 1], buffer);

    let int = convert_indices(&[1, 65536]);
    assert_eq!(DrawElementType::UnsignedInt, draw_element_type(&int));
    let mut buffer = vec![9];
    write_vertex_indices(&int, &mut buffer);
    assert_eq!(vec![9, 1, 0, 0, 0, 0, 0, 1, 0], buffer);
}

#[test]
fn size_in_bytes_attributes_v10() {
    assert_eq!(4, AttributeDataTypeV10::Byte4.get_size_in_bytes_v10());
    assert_eq!(8, AttributeDataTypeV10::Float2.get_size_in_bytes_v10());
    assert_eq!(12, AttributeDataTypeV10::Float3.get_size_in_bytes_v10());
    assert_eq!(16, AttributeDataTypeV10::Float4.get_size_in_bytes_v10());
    assert_eq!(4, AttributeDataTypeV10::HalfFloat2.get_size_in_bytes_v10());
    assert_eq!(8, AttributeDataTypeV10::HalfFloat4.get_size_in_bytes_v10());
}

#[test]
fn size_in_bytes_attributes_v8() {
    assert_eq!(4, AttributeDataTypeV8::Byte4.get_size_in_bytes_v8());
    assert_eq!(8, AttributeDataTypeV8::Float2.get_size_in_bytes_v8());
    assert_eq!(12, AttributeDataTypeV8::Float3.get_size_in_bytes_v8());
    assert_eq!(16, AttributeDataTypeV8::Float4.get_size_in_bytes_v8());
    assert_eq!(8, AttributeDataTypeV8::HalfFloat4.get_size_in_bytes_v8());
}

#[test]
fn calculate_offset_stride_buffer_indices() {
    let offsets = [1, 2, 3, 4];
    let strides = [11, 22, 33, 44];
    assert_eq!((2, 11), calculate_offset_stride(0, 1, offsets, strides).unwrap());
    assert_eq!((3, 22), calculate_offset_stride(1, 1, offsets, strides).unwrap());
    assert_eq!((4, 33), calculate_offset_stride(2, 1, offsets, strides).unwrap());
    assert_eq!((5, 44), calculate_offset_stride(3, 1, offsets, strides).unwrap());

    // Invalid index.
    let result = calculate_offset_stride(4, 0, offsets, strides);
    assert!(matches!(result, Err(AttributeError::NoOffsetOrStride(4))));
}

#[test]
fn create_mesh_object_vertex_count_mismatch() {
    // The vertex count can't be determined since 1 != 2.
    let result = MeshObjectData {
        positions: vec![vector2(2)],
        tangents: vec![vector2(1)],
        ..MeshObjectData::default()
    }
    .check_vertex_indices();

    assert!(matches!(result, Err(Error::AttributeDataLengthMismatch)));
}

#[test]
fn create_mesh_object_valid_indices() {
    MeshObjectData {
        vertex_indices: vec![0, 1, 1],
        positions: vec![vector2(2)],
        tangents: vec![vector2(2)],
        ..MeshObjectData::default()
    }
    .check_vertex_indices()
    .unwrap();
}

#[test]
fn create_mesh_object_quad_faces() {
    // Currently only triangles are supported.
    let result = MeshObjectData {
        vertex_indices: vec![0, 2, 1, 0, 2, 1, 0, 0],
        positions: vec![vector2(2)],
        tangents: vec![vector2(2)],
        ..MeshObjectData::default()
    }
    .check_vertex_indices();

    assert!(matches!(
        result,
        Err(Error::NonTriangulatedFaces { vertex_index_count: 8 })
    ));
}

#[test]
fn create_mesh_object_invalid_indices() {
    // Index 2 is out of bounds for the vertex attribute arrays.
    let result = MeshObjectData {
        vertex_indices: vec![0, 2, 1],
        positions: vec![vector2(2)],
        tangents: vec![vector2(2)],
        ..MeshObjectData::default()
    }
    .check_vertex_indices();

    assert!(matches!(
        result,
        Err(Error::VertexIndexOutOfRange {
            vertex_index: 2,
            vertex_count: 2
        })
    ));
}

#[test]
fn create_empty_mesh_object_invalid_indices() {
    // Index 0 is out of bounds for the vertex attribute arrays.
    let result = MeshObjectData {
        vertex_indices: vec![0, 0, 0],
        ..MeshObjectData::default()
    }
    .check_vertex_indices();

    assert!(matches!(
        result,
        Err(Error::VertexIndexOutOfRange {
            vertex_index: 0,
            vertex_count: 0
        })
    ));
}

#[test]
fn vertex_count_of_attributes() {
    let object = MeshObjectData {
        positions: vec![vector2(3)],
        normals: vec![vector2(3)],
        color_sets: vec![vector2(3), vector2(3)],
        ..MeshObjectData::default()
    };
    assert_eq!(3, object.vertex_count().unwrap());
    assert_eq!(0, MeshObjectData::default().vertex_count().unwrap());
    let object = MeshObjectData {
        positions: vec![vector2(3)],
        color_sets: vec![vector2(3), vector2(4)],
        ..MeshObjectData::default()
    };
    assert!(matches!(object.vertex_count(), Err(Error::AttributeDataLengthMismatch)));
}

#[test]
fn out_of_range_index_reports_largest_index() {
    let result = MeshObjectData {
        vertex_indices: vec![0, 7, 1, 5, 9, 2],
        positions: vec![vector2(4)],
        ..MeshObjectData::default()
    }
    .check_vertex_indices();
    assert!(matches!(
        result,
        Err(Error::VertexIndexOutOfRange {
            vertex_index: 9,
            vertex_count: 4
        })
    ));
}

#[test]
fn vector_data_components() {
    let data = VectorData::Vector3(vec![[1, 2, 3], [4, 5, 6]]);
    assert_eq!(2, data.len());
    assert!(!data.is_empty());
    assert_eq!(vec![vec![1, 2, 3], vec![4, 5, 6]], data.to_component_vecs());
    assert!(VectorData::Vector4(Vec::new()).is_empty());
}

fn weights(indices: &[u32]) -> Vec<VertexWeight> {
    indices
        .iter()
        .map(|i| VertexWeight {
            vertex_index: *i,
            vertex_weight: 0f32.to_bits(),
        })
        .collect()
}

#[test]
fn max_influences_no_bones() {
    assert_eq!(0, calculate_max_influences(&[], 0));
}

#[test]
fn max_influences_one_bone_no_weights() {
    let influences = vec![BoneInfluence {
        bone_name: "a".to_string(),
        vertex_weights: Vec::new(),
    }];
    assert_eq!(0, calculate_max_influences(&influences, 0));
}

#[test]
fn max_influences_one_bone() {
    // Check that only influences are counted and not occurrences within an influence.
    let influences = vec![BoneInfluence {
        bone_name: "a".to_string(),
        vertex_weights: weights(&[0, 0]),
    }];
    // This is 1 and not 2 since there is only a single bone.
    assert_eq!(1, calculate_max_influences(&influences, 0));
    assert_eq!(1, calculate_max_influences(&influences, 2));
}

#[test]
fn max_influences_three_bones() {
    // Check that only influences are counted and not occurrences within an influence.
    let influences = vec![
        BoneInfluence {
            bone_name: "a".to_string(),
            vertex_weights: weights(&[0, 0, 0, 3]),
        },
        BoneInfluence {
            bone_name: "b".to_string(),
            vertex_weights: weights(&[2, 1, 3]),
        },
        BoneInfluence {
            bone_name: "c".to_string(),
            vertex_weights: weights(&[0, 3]),
        },
    ];

    // The vertex index count shouldn't need to be exact.
    assert_eq!(3, calculate_max_influences(&influences, 0));
    assert_eq!(3, calculate_max_influences(&influences, 4));
}

#[test]
fn max_influences_counts_each_vertex_separately() {
    let influences = vec![
        BoneInfluence {
            bone_name: "a".to_string(),
            vertex_weights: weights(&[5, 6]),
        },
        BoneInfluence {
            bone_name: "b".to_string(),
            vertex_weights: weights(&[6, 7]),
        },
        BoneInfluence {
            bone_name: "c".to_string(),
            vertex_weights: weights(&[7, 8]),
        },
    ];
    assert_eq!(2, calculate_max_influences(&influences, 9));
}

#[test]
fn vertex_weights_v10_roundtrip() {
    let weights = vec![
        VertexWeight { vertex_index: 0, vertex_weight: 0.5f32.to_bits() },
        VertexWeight { vertex_index: 65535, vertex_weight: 1.0f32.to_bits() },
        VertexWeight { vertex_index: 7, vertex_weight: 0 },
    ];
    let bytes = create_vertex_weights_v10(&weights).unwrap();
    assert_eq!(weights, read_vertex_weights_v10(&bytes));
    // Bytes left over after the last whole weight are ignored.
    let mut longer = bytes.clone();
    longer.extend([1, 2, 3, 4, 5]);
    assert_eq!(weights, read_vertex_weights_v10(&longer));
    assert!(read_vertex_weights_v10(&[1, 2, 3, 4, 5]).is_empty());
    assert_eq!(
        vec![VertexWeight { vertex_index: 0x0201, vertex_weight: 0x0605_0403 }],
        read_vertex_weights_v10(&[1, 2, 3, 4, 5, 6])
    );
}
