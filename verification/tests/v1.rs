use ssbh_data::anim_data::error::Error;
use ssbh_data::anim_data::v1::common::{
    align_up, compute_block_count, compute_block_count_4309, compute_block_count_type9, compute_block_len,
    compute_block_len_4309, compute_block_len_type9, compute_block_qcounts, compute_block_qcounts_4309,
    read_curve_header, read_f32_le, read_residual_header, read_single_block_layout, read_type9_layout, read_u16_le, read_u32_le, read_vec3_f32_le, read_vec4_f32_le,
    key_residuals, read_indexed_keys, read_residual_coefficients, residual_component_end, KeyResidual, residual_vector_end, CoefficientGroup, ResidualWeight, try_pick_comp_bits_4309, walk_residual_4409, indexed_keys_offset,
    sparse_frame_sources, FrameSource,
};
use ssbh_data::anim_data::v1::rotate_basic::{
    frames_4400, layout_4300, layout_4308, payload_4408, Layout4300, Layout4308, Payload4408,
};
use ssbh_data::anim_data::v1::rotate_inferred::infer_4309_layout;
use ssbh_data::anim_data::v1::translate::{infer_3408_layout, infer_3409_layout, pick_layout_3409};
use ssbh_data::anim_data::v1::rotate_4409::{pick_layout_4409, read_rotate_4409_header, Rotate4409Header};
use ssbh_data::anim_data::v1::{
    create_v12_compressed_bool_data, create_v12_compressed_uv_data, create_v12_uncompressed_bool_data, v12_value_format,
    V12ValueFormat,
};
use ssbh_data::anim_data::UvTransform;

#[test]
fn align_up_values() {
    assert_eq!(0, align_up(0, 4));
    assert_eq!(4, align_up(1, 4));
    assert_eq!(4, align_up(4, 4));
    assert_eq!(8, align_up(5, 4));
    assert_eq!(7, align_up(7, 0));
    assert_eq!(9, align_up(7, 3));
}

#[test]
fn little_endian_reads() {
    let data = [0x34, 0x12, 0x00, 0x00, 0x80, 0x3f, 0xff];
    assert_eq!(0x1234, read_u16_le(&data, 0).unwrap());
    assert_eq!(0x1234, read_u32_le(&data, 0).unwrap());
    assert_eq!(1.0f32.to_bits(), read_f32_le(&data, 2).unwrap());
    assert!(matches!(read_u16_le(&data, 6), Err(Error::InvalidData)));
    assert!(matches!(read_u32_le(&data, 4), Err(Error::InvalidData)));
    assert!(matches!(read_u16_le(&data, 7), Err(Error::InvalidData)));
}

#[test]
fn vector_reads() {
    let mut data = Vec::new();
    for v in [1.0f32, -2.0, 0.5, 4.0] {
        data.extend_from_slice(&v.to_le_bytes());
    }
    assert_eq!(
        [1.0f32.to_bits(), (-2.0f32).to_bits(), 0.5f32.to_bits()],
        read_vec3_f32_le(&data, 0).unwrap()
    );
    assert_eq!(
        [1.0f32.to_bits(), (-2.0f32).to_bits(), 0.5f32.to_bits(), 4.0f32.to_bits()],
        read_vec4_f32_le(&data, 0).unwrap()
    );
    assert_eq!(
        [(-2.0f32).to_bits(), 0.5f32.to_bits(), 4.0f32.to_bits()],
        read_vec3_f32_le(&data, 4).unwrap()
    );
    assert!(matches!(read_vec4_f32_le(&data, 4), Err(Error::InvalidData)));
    assert!(matches!(read_vec3_f32_le(&data, 8), Err(Error::InvalidData)));
}

#[test]
fn block_counts_and_lengths() {
    assert_eq!(1, compute_block_count(0));
    assert_eq!(1, compute_block_count(1));
    assert_eq!(1, compute_block_count(33));
    assert_eq!(2, compute_block_count(34));
    assert_eq!(2, compute_block_count(35));
    assert_eq!(1, compute_block_len(1, 0));
    assert_eq!(33, compute_block_len(35, 0));
    assert_eq!(1, compute_block_len(35, 1));
    // The first block of 34 keys holds all 33 keys after the first key.
    assert_eq!(33, compute_block_len(34, 0));
    // A last block can be empty.
    assert_eq!(0, compute_block_len(34, 1));
    assert_eq!(3, compute_block_count(67));
    assert_eq!(0, compute_block_len(67, 2));
    assert_eq!(compute_block_count(67), compute_block_count_4309(67));
    assert_eq!(compute_block_len(67, 1), compute_block_len_4309(67, 1));
}

#[test]
fn block_counts_type9() {
    assert_eq!(1, compute_block_count_type9(1));
    assert_eq!(1, compute_block_count_type9(34));
    assert_eq!(2, compute_block_count_type9(35));
    assert_eq!(33, compute_block_len_type9(35, 0));
    assert_eq!(1, compute_block_len_type9(35, 1));
    assert_eq!(33, compute_block_len_type9(34, 0));
    assert_eq!(1, compute_block_len_type9(1, 5));
}

/// A residual component with one group of 8-bit coefficients: 8 header bytes and 4 data bytes.
fn byte_group_component() -> Vec<u8> {
    vec![0x00, 0x40, 0x00, 0x80, 0xff, 0x01, 0x00, 0x00, 1, 2, 3, 4]
}

#[test]
fn residual_component_advances_cursor() {
    let mut residual = Vec::new();
    residual.extend_from_slice(&0x4000u16.to_le_bytes());
    residual.extend_from_slice(&0x8000u16.to_le_bytes());
    residual.push(255);
    residual.push(0x10);
    residual.push(0x00);
    residual.push(0x00);
    residual.extend_from_slice(&[0x40, 0x00, 0x00, 0x00, 0x00, 0x00, 0x00, 0x00]);

    assert_eq!(16, residual_component_end(&residual, 0, 1, 4).unwrap());
    let header = read_residual_header(&residual, 0).unwrap();
    assert_eq!((0x4000, 0x8000, 255), (header.amplitude, header.slope, header.slope_scale));
    assert_eq!((1, 0, 0, 0), (header.short_groups, header.byte_groups, header.empty_groups, header.nibble_groups));
    assert_eq!((0, 0, 16), (header.base_weights, header.slope_weights, header.end));
    // The first key and keys past the block store nothing.
    assert_eq!(5, residual_component_end(&residual, 5, 0, 4).unwrap());
    assert_eq!(5, residual_component_end(&residual, 5, 4, 4).unwrap());
}

#[test]
fn residual_header_errors() {
    // No groups.
    assert!(matches!(read_residual_header(&[0, 0, 0, 0, 0, 0x00, 0x00, 0x00], 0), Err(Error::InvalidData)));
    // Nine groups.
    assert!(matches!(read_residual_header(&[0, 0, 0, 0, 0, 0x00, 0x09, 0x00], 0), Err(Error::InvalidData)));
    // Too many weights.
    assert!(matches!(read_residual_header(&[0, 0, 0, 0, 0, 0x00, 0x01, 0x54], 0), Err(Error::InvalidData)));
    // Data past the end.
    assert!(matches!(read_residual_header(&[0, 0, 0, 0, 0, 0x01, 0x00, 0x00, 1, 2, 3], 0), Err(Error::InvalidData)));
    // Header past the end.
    assert!(matches!(read_residual_header(&[0, 0, 0, 0, 0, 0x00, 0x01], 0), Err(Error::InvalidData)));
    // Only groups without data, and pairs of nibble groups.
    assert_eq!(8, read_residual_header(&[0, 0, 0, 0, 0, 0x00, 0x03, 0x44], 0).unwrap().end);
    assert_eq!(12, read_residual_header(&[0, 0, 0, 0, 0, 0x00, 0x30, 0x00, 0, 0, 0, 0], 0).unwrap().end);
}

#[test]
fn residual_vector_and_block_sizes() {
    let mut payload = byte_group_component();
    payload.extend(byte_group_component());
    assert_eq!(24, residual_vector_end(&payload, 0, 1, 2, 3).unwrap());
    assert!(matches!(residual_vector_end(&payload, 0, 1, 3, 3), Err(Error::InvalidData)));

    assert_eq!(vec![6], compute_block_qcounts(&payload, 0, 2, 3).unwrap());
    assert_eq!(vec![3], compute_block_qcounts_4309(&payload, 0, 1, 3).unwrap());
    assert!(matches!(compute_block_qcounts(&payload, 0, 3, 3), Err(Error::InvalidData)));
    assert_eq!(vec![0], compute_block_qcounts(&payload, 0, 3, 1).unwrap());

    assert_eq!(24, walk_residual_4409(&payload, 0, 2, 3, 1).unwrap());
    assert!(matches!(walk_residual_4409(&payload, 0, 2, 3, 2), Err(Error::InvalidData)));
}

#[test]
fn pick_component_count_4309() {
    let mut payload = byte_group_component();
    payload.extend(byte_group_component());
    // Two components use every byte; one component leaves 12.
    let (comp_bits, q_counts, end) = try_pick_comp_bits_4309(&payload, 0, 3).unwrap();
    assert_eq!((2, vec![6], 24), (comp_bits, q_counts, end));

    // A single key stores no residuals, so every count leaves all bytes and four wins.
    let (comp_bits, q_counts, end) = try_pick_comp_bits_4309(&payload, 0, 1).unwrap();
    assert_eq!((4, vec![0], 0), (comp_bits, q_counts, end));

    assert!(matches!(try_pick_comp_bits_4309(&[0u8; 8], 0, 3), Err(Error::InvalidData)));
}

#[test]
fn v12_compressed_bool_data() {
    assert_eq!(Vec::<u8>::new(), create_v12_compressed_bool_data(&[]).unwrap());
    assert_eq!(
        vec![0x13, 0x10, 0, 0, 1, 0],
        create_v12_compressed_bool_data(&[true, true, true]).unwrap()
    );
    assert_eq!(vec![0x13, 0x10, 0, 0, 0, 0], create_v12_compressed_bool_data(&[false]).unwrap());
    assert_eq!(
        vec![0x13, 0x10, 0, 0, 1, 0, 0, 0, 1, 0],
        create_v12_compressed_bool_data(&[true, false, true]).unwrap()
    );
}

#[test]
fn v12_uncompressed_bool_data() {
    assert_eq!(Vec::<u8>::new(), create_v12_uncompressed_bool_data(&[]).unwrap());
    assert_eq!(
        vec![0x13, 0x10, 0, 0, 0, 0],
        create_v12_uncompressed_bool_data(&[false, false]).unwrap()
    );
    assert_eq!(
        vec![0x19, 0x10, 0, 0, 3, 0, 0, 0, 0, 0, 1, 0, 1, 0],
        create_v12_uncompressed_bool_data(&[false, true, true]).unwrap()
    );
}

#[test]
fn rotate_4409_header() {
    let mut bytes = Vec::new();
    bytes.extend_from_slice(&0x4409u32.to_le_bytes());
    bytes.extend_from_slice(&3u32.to_le_bytes());
    bytes.extend_from_slice(&1.0f32.to_le_bytes());
    bytes.extend_from_slice(&0.5f32.to_le_bytes());
    bytes.extend_from_slice(&[0, 0, 7, 0]);
    let header = read_rotate_4409_header(&bytes).unwrap();
    assert_eq!(
        Rotate4409Header {
            key_count: 3,
            unk1: 1.0f32.to_bits(),
            base_scale: 0.5f32.to_bits(),
            bits: 7,
        },
        header
    );
    assert!(matches!(read_rotate_4409_header(&bytes[..19]), Err(Error::InvalidData)));
    bytes[0] = 0x08;
    assert!(matches!(read_rotate_4409_header(&bytes), Err(Error::InvalidData)));
}

#[test]
fn rotate_4409_layout() {
    // Three keys: one block, two endpoints and residuals for the second key.
    let mut bytes = vec![0u8; 0x14 + 32];
    bytes.extend(byte_group_component());
    bytes.extend(byte_group_component());
    assert_eq!(76, bytes.len());
    // Endpoints at 0x14: residuals at 52 with two components use every byte.
    assert_eq!((52, 2), pick_layout_4409(&bytes, 3, [true, true]).unwrap());
    // Endpoints at 0x18: residuals at 56 with one component leave four bytes.
    assert_eq!((56, 1), pick_layout_4409(&bytes, 3, [false, true]).unwrap());
    assert!(matches!(pick_layout_4409(&bytes, 3, [false, false]), Err(Error::InvalidData)));
    // Endpoints past the end.
    assert!(matches!(pick_layout_4409(&bytes[..40], 3, [true, true]), Err(Error::InvalidData)));
}

#[test]
fn v12_value_formats() {
    assert_eq!(Some(V12ValueFormat::Uint), v12_value_format(&[0x13, 0x10, 0, 0, 1, 0]).unwrap());
    assert_eq!(Some(V12ValueFormat::Float), v12_value_format(&[0x03, 0x10, 0, 0]).unwrap());
    assert_eq!(Some(V12ValueFormat::Vector3), v12_value_format(&[0x03, 0x30, 0, 0]).unwrap());
    assert_eq!(Some(V12ValueFormat::Vector3Curve(0x3409)), v12_value_format(&[0x09, 0x34, 0, 0]).unwrap());
    assert_eq!(Some(V12ValueFormat::Quaternion), v12_value_format(&[0x03, 0x40, 0, 0]).unwrap());
    assert_eq!(Some(V12ValueFormat::QuaternionCurve(0x4200)), v12_value_format(&[0x00, 0x42, 0, 0]).unwrap());
    assert_eq!(None, v12_value_format(&[0x01, 0x42, 0, 0]).unwrap());
    assert!(matches!(v12_value_format(&[0x13, 0x10, 0]), Err(Error::InvalidData)));
}

#[test]
fn infer_3409_layout_prefers_fewest_bytes_left() {
    // Two endpoints of three floats at 0x14, then two components of residuals.
    let mut bytes = vec![0u8; 0x14 + 24];
    bytes.extend(byte_group_component());
    bytes.extend(byte_group_component());
    let (elem, comp_bits, residual_off, q_counts) = infer_3409_layout(&bytes, 0x14, 2, 3, [true, true]).unwrap();
    assert_eq!((12, 2, 44, vec![6]), (elem, comp_bits, residual_off, q_counts));
    // With only 16-bit endpoints usable, the same residuals are found after padding.
    let (elem, comp_bits, residual_off, q_counts) = infer_3409_layout(&bytes, 0x14, 2, 3, [false, true]).unwrap();
    assert_eq!((8, 2, 44, vec![6]), (elem, comp_bits, residual_off, q_counts));
    assert!(matches!(infer_3409_layout(&bytes, 0x14, 2, 3, [false, false]), Err(Error::InvalidData)));
}

#[test]
fn infer_4309_layout_prefers_four_float_endpoints() {
    // Two endpoints of four floats at 0x14, then two components of residuals.
    let mut bytes = vec![0u8; 0x14 + 32];
    bytes.extend(byte_group_component());
    bytes.extend(byte_group_component());
    let (elem, residual_off, comp_bits, q_counts) = infer_4309_layout(&bytes, 0x14, 2, 3, [true, true]).unwrap();
    assert_eq!((16, 52, 2, vec![6]), (elem, residual_off, comp_bits, q_counts));
    let (elem, residual_off, comp_bits, q_counts) = infer_4309_layout(&bytes, 0x14, 2, 3, [false, true]).unwrap();
    assert_eq!((12, 52, 2, vec![6]), (elem, residual_off, comp_bits, q_counts));
    // A misaligned endpoint offset is never usable.
    assert!(matches!(infer_4309_layout(&bytes, 0x13, 2, 3, [true, true]), Err(Error::InvalidData)));
}

#[test]
fn infer_3408_layout_finds_residuals() {
    // Header, two endpoints of three floats, the base scale, then two components of residuals.
    let mut bytes = vec![0u8; 12 + 24 + 4];
    bytes.extend(byte_group_component());
    bytes.extend(byte_group_component());
    let (endpoint_base, base_scale_off, comp_bits, residual_off, q_counts) = infer_3408_layout(&bytes, 3).unwrap();
    assert_eq!((12, 36, 2, 40, vec![6]), (endpoint_base, base_scale_off, comp_bits, residual_off, q_counts));
    assert!(matches!(infer_3408_layout(&[0u8; 64], 3), Err(Error::InvalidData)));
}

#[test]
fn curve_headers() {
    let mut bytes = Vec::new();
    bytes.extend_from_slice(&0x3408u32.to_le_bytes());
    bytes.extend_from_slice(&5u32.to_le_bytes());
    bytes.extend_from_slice(&2.0f32.to_le_bytes());
    assert_eq!((5, 2.0f32.to_bits()), read_curve_header(&bytes, 0x3408, 12).unwrap());
    assert!(matches!(read_curve_header(&bytes, 0x3409, 12), Err(Error::InvalidData)));
    assert!(matches!(read_curve_header(&bytes, 0x3408, 16), Err(Error::InvalidData)));
}

#[test]
fn blocks_cover_all_keys_after_the_first() {
    for key_count in [2usize, 3, 33, 34, 35, 66, 67, 68, 100, 1000] {
        let total: usize = (0..compute_block_count(key_count)).map(|b| compute_block_len(key_count, b)).sum();
        assert_eq!(key_count - 1, total);
        let total9: usize = (0..compute_block_count_type9(key_count)).map(|b| compute_block_len_type9(key_count, b)).sum();
        assert_eq!(key_count - 1, total9);
    }
}

#[test]
fn type9_layouts() {
    // Three keys with 16-bit frame indices: one block and quaternion endpoints.
    let mut bytes = vec![0u8; 60];
    bytes[24..26].copy_from_slice(&1u16.to_le_bytes());
    let layout = read_type9_layout(&bytes, 3, 2, 16).unwrap();
    assert_eq!((20, 1, 28, vec![60]), (layout.base_scale_off, layout.block_count, layout.endpoint_base, layout.residual_starts));
    // The endpoints do not fit.
    assert!(matches!(read_type9_layout(&bytes[..59], 3, 2, 16), Err(Error::InvalidData)));
    // The block count does not match the key count.
    bytes[24] = 2;
    assert!(matches!(read_type9_layout(&bytes, 3, 2, 16), Err(Error::InvalidData)));

    // Forty keys with 8-bit frame indices: two blocks, one residual offset and vector endpoints.
    let mut bytes = vec![0u8; 96];
    bytes[56..58].copy_from_slice(&2u16.to_le_bytes());
    bytes[58..60].copy_from_slice(&5u16.to_le_bytes());
    let layout = read_type9_layout(&bytes, 40, 1, 12).unwrap();
    assert_eq!((52, 2, 60, vec![96, 116]), (layout.base_scale_off, layout.block_count, layout.endpoint_base, layout.residual_starts));
    // The frame indices do not fit.
    assert!(matches!(read_type9_layout(&bytes[..40], 40, 1, 12), Err(Error::InvalidData)));
}

#[test]
fn pick_layout_3409_between_endpoint_positions() {
    let mut bytes = vec![0u8; 0x14 + 24];
    bytes.extend(byte_group_component());
    bytes.extend(byte_group_component());
    // Both positions find residuals at 44 with two components; the first position wins.
    assert_eq!((0x14, 12, 2, 44, vec![6]), pick_layout_3409(&bytes, 2, 3, [true, true], [true, true]).unwrap());
    assert_eq!((0x18, 8, 2, 44, vec![6]), pick_layout_3409(&bytes, 2, 3, [false, false], [true, true]).unwrap());
    assert!(matches!(pick_layout_3409(&bytes, 2, 3, [false, false], [false, false]), Err(Error::InvalidData)));
}

#[test]
fn layouts_4300() {
    // Three frames after a 16-byte header, as the writer lays them out, although 12 + 3
    // rounded up to 16 and then 48 bytes of quaternions would also fill the stream.
    assert_eq!(Layout4300::Raw(16), layout_4300(64, 3).unwrap());
    // Five keys with frame indices: 12 + 5 rounded up to 20, then 80 bytes of quaternions.
    assert_eq!(Layout4300::Indexed(20), layout_4300(100, 5).unwrap());
    // Three frames after a 16-byte header, with bytes left over.
    assert_eq!(Layout4300::Raw(16), layout_4300(65, 3).unwrap());
    // Exactly a 12-byte header and the frames.
    assert_eq!(Layout4300::Raw(12), layout_4300(60, 3).unwrap());
    assert!(matches!(layout_4300(59, 3), Err(Error::InvalidData)));
}

#[test]
fn frames_of_4400() {
    assert_eq!(vec![(12, true), (28, true)], frames_4400(44, 2).unwrap());
    // The last frame may hold only three floats.
    assert_eq!(vec![(12, true), (28, false)], frames_4400(40, 2).unwrap());
    assert!(matches!(frames_4400(39, 2), Err(Error::InvalidData)));
    assert_eq!(Vec::<(usize, bool)>::new(), frames_4400(12, 0).unwrap());
}

#[test]
fn single_block_layouts() {
    // Three keys with 16-bit frame indices: base scale at 20, two vector endpoints, residuals at 48.
    let bytes = vec![0u8; 48];
    assert_eq!((20, 48), read_single_block_layout(&bytes, 3, 2, 12, 34).unwrap());
    assert!(matches!(read_single_block_layout(&bytes[..47], 3, 2, 12, 34), Err(Error::InvalidData)));
    // Quaternion endpoints need 8 more bytes.
    let bytes = vec![0u8; 56];
    assert_eq!((20, 56), read_single_block_layout(&bytes, 3, 2, 16, 33).unwrap());
    // Too many keys for one block.
    assert!(matches!(read_single_block_layout(&vec![0u8; 200], 34, 1, 12, 33), Err(Error::InvalidData)));
    // 8-bit frame indices.
    assert_eq!((16, 44), read_single_block_layout(&vec![0u8; 44], 3, 1, 12, 33).unwrap());
}

fn uv_bits(scale_u: f32, scale_v: f32, rotation: f32, translate_u: f32, translate_v: f32) -> UvTransform {
    UvTransform {
        scale_u: scale_u.to_bits(),
        scale_v: scale_v.to_bits(),
        rotation: rotation.to_bits(),
        translate_u: translate_u.to_bits(),
        translate_v: translate_v.to_bits(),
    }
}

fn uv_bytes(code: u32, values: &[UvTransform]) -> Vec<u8> {
    let mut out = code.to_le_bytes().to_vec();
    for v in values {
        for w in [v.scale_u, v.scale_v, v.rotation, v.translate_u, v.translate_v] {
            out.extend_from_slice(&w.to_le_bytes());
        }
    }
    out
}

#[test]
fn v12_compressed_uv_data_formats() {
    assert_eq!(Vec::<u8>::new(), create_v12_compressed_uv_data(&[]).unwrap());

    let a = uv_bits(1.0, 1.0, 0.0, 0.5, 0.25);
    let b = uv_bits(2.0, 1.0, 0.0, 0.5, 0.25);
    // A constant track is written once.
    assert_eq!(uv_bytes(0x5014, &[a]), create_v12_compressed_uv_data(&[a, a, a]).unwrap());
    // Negative zero equals zero as a float.
    let a_negative_zero = uv_bits(1.0, 1.0, -0.0, 0.5, 0.25);
    assert_eq!(uv_bytes(0x5014, &[a]), create_v12_compressed_uv_data(&[a, a_negative_zero]).unwrap());
    // Varying values are all written.
    assert_eq!(uv_bytes(0x5014, &[a, b, a]), create_v12_compressed_uv_data(&[a, b, a]).unwrap());
    // NaN equals nothing, so a repeated NaN is written for every frame.
    let nan = uv_bits(f32::NAN, 1.0, 0.0, 0.0, 0.0);
    assert_eq!(uv_bytes(0x5014, &[nan, nan]), create_v12_compressed_uv_data(&[nan, nan]).unwrap());
    assert_eq!(uv_bytes(0x5014, &[nan]), create_v12_compressed_uv_data(&[nan]).unwrap());
}

#[test]
fn sparse_frames_blend_between_keys() {
    assert_eq!(
        vec![
            FrameSource::Blend { from: 0, step: 0, span: 4 },
            FrameSource::Blend { from: 0, step: 1, span: 4 },
            FrameSource::Blend { from: 0, step: 2, span: 4 },
            FrameSource::Blend { from: 0, step: 3, span: 4 },
            FrameSource::Key(1),
        ],
        sparse_frame_sources(&[0, 4], 2, 5)
    );
    // Frames before the first key take the first key; keys that do not advance are skipped.
    assert_eq!(vec![FrameSource::Key(0), FrameSource::Key(0), FrameSource::Key(1), FrameSource::Key(1)], sparse_frame_sources(&[2, 2], 2, 4));
    // A pair reaching past the end blends up to the last frame.
    assert_eq!(
        vec![FrameSource::Blend { from: 0, step: 0, span: 2 }, FrameSource::Blend { from: 0, step: 1, span: 2 }, FrameSource::Blend { from: 0, step: 2, span: 2 }],
        sparse_frame_sources(&[0, 10], 2, 3)
    );
    // Later pairs overwrite the frames they share with earlier ones, and a pair clamped to a
    // single frame gives its first key.
    assert_eq!(
        vec![FrameSource::Blend { from: 0, step: 0, span: 1 }, FrameSource::Blend { from: 1, step: 0, span: 1 }, FrameSource::Key(2)],
        sparse_frame_sources(&[0, 1, 2, 5], 4, 3)
    );
}

#[test]
fn sparse_frames_without_keys() {
    assert_eq!(vec![FrameSource::Default], sparse_frame_sources(&[], 3, 5));
    assert_eq!(vec![FrameSource::Default], sparse_frame_sources(&[0, 1], 0, 5));
    assert_eq!(vec![FrameSource::Key(0); 3], sparse_frame_sources(&[7], 1, 3));
}

#[test]
fn indexed_key_offsets() {
    // 16-bit indices: 12 + 2 * 3 = 18, aligned to 20.
    assert_eq!(20, indexed_keys_offset(20 + 3 * 12, 3, 2, 12).unwrap());
    assert!(matches!(indexed_keys_offset(20 + 3 * 12 - 1, 3, 2, 12), Err(Error::InvalidData)));
    // 8-bit indices: 12 + 4 = 16.
    assert_eq!(16, indexed_keys_offset(16 + 64, 4, 1, 16).unwrap());
    assert_eq!(12, indexed_keys_offset(12, 0, 1, 12).unwrap());
}

#[test]
fn rotate_4308_and_4408_layouts() {
    // Three keys: indices end at 15, parameters at 16, key data from 52.
    assert_eq!(Layout4308 { params: 16, payload: 52, nibbles: true }, layout_4308(58, 3).unwrap());
    assert_eq!(Layout4308 { params: 16, payload: 52, nibbles: false }, layout_4308(80, 3).unwrap());
    assert!(matches!(layout_4308(51, 3), Err(Error::InvalidData)));
    assert!(matches!(layout_4308(14, 3), Err(Error::InvalidData)));

    assert_eq!(Payload4408::Packed, payload_4408(48 + 5 * 40, 40).unwrap());
    assert_eq!(Payload4408::Residual, payload_4408(100, 34).unwrap());
    assert!(matches!(payload_4408(100, 35), Err(Error::InvalidData)));
    assert!(matches!(payload_4408(47, 1), Err(Error::InvalidData)));
}

#[test]
fn residual_coefficient_groups() {
    // One group of 16-bit coefficients, one of 8-bit coefficients, an empty group and three
    // 4-bit groups, of which only the first pair is stored. Two base weights, one slope weight.
    let data = [
        0x00, 0x80, 0x00, 0x40, 0xFF, 0x11, 0x31, 0x21, // header
        0x01, 0x00, 0xFF, 0xFF, 0x00, 0x80, 0xFF, 0x7F, // 16-bit group
        0x01, 0xFF, 0x80, 0x7F, // 8-bit group
        0x12, 0x34, 0x56, 0x78, // pair of 4-bit groups
    ];
    let (header, groups) = read_residual_coefficients(&data, 0).unwrap();
    assert_eq!(header.amplitude, 0x8000);
    assert_eq!(header.slope, 0x4000);
    assert_eq!(header.slope_scale, 0xFF);
    assert_eq!(header.end, 24);
    assert_eq!(
        groups,
        vec![
            (CoefficientGroup::Short([1, -1, -32768, 32767]), ResidualWeight::Base),
            (CoefficientGroup::Byte([1, -1, -128, 127]), ResidualWeight::Base),
            (CoefficientGroup::Nibble([1, 3, 5, 7]), ResidualWeight::Slope),
            (CoefficientGroup::Nibble([2, 4, 6, 8]), ResidualWeight::ScaledSlope),
        ]
    );
    assert!(matches!(read_residual_coefficients(&data[..20], 0), Err(Error::InvalidData)));
}

#[test]
fn key_residual_offsets() {
    // 70 keys: blocks of 33, 33 and 3 keys after the first.
    let keys = key_residuals(70, 100, &[6, 3, 2]);
    assert_eq!(keys.len(), 70);
    assert_eq!(keys[0], KeyResidual { block: 0, local: 0, block_len: 33, offset: 100 });
    assert_eq!(keys[32], KeyResidual { block: 0, local: 32, block_len: 33, offset: 100 });
    assert_eq!(keys[33], KeyResidual { block: 1, local: 0, block_len: 33, offset: 124 });
    assert_eq!(keys[69], KeyResidual { block: 2, local: 3, block_len: 3, offset: 136 });
    // A single key interpolates over a block of one.
    assert_eq!(key_residuals(1, 8, &[0]), vec![KeyResidual { block: 0, local: 0, block_len: 1, offset: 8 }]);
    assert!(key_residuals(0, 8, &[]).is_empty());
}

#[test]
fn vector3_stream_data_reads_back() {
    let values = vec![[1, 2, 3], [4, 5, 6], [7, 8, 9]];
    let data = ssbh_data::anim_data::v1::create::v12_vector3_stream_data(&values);
    assert_eq!(read_curve_header(&data, 0x3400, 12).unwrap(), (3, 1.0f32.to_bits()));
    assert_eq!(data.len(), 12 + 36);
    for (i, v) in values.iter().enumerate() {
        assert_eq!(read_vec3_f32_le(&data, 12 + 12 * i).unwrap(), *v);
    }
}

#[test]
fn indexed_keys_with_16_bit_frame_indices() {
    let mut data = Vec::new();
    for w in [0x4200u32, 2, 0] {
        data.extend_from_slice(&w.to_le_bytes());
    }
    data.extend_from_slice(&[3, 1, 7, 0]);
    for w in [1u32, 2, 3, 4, 5, 6, 7, 8] {
        data.extend_from_slice(&w.to_le_bytes());
    }
    let keys = read_indexed_keys(&data, 0x4200, 2, 4).unwrap();
    assert_eq!(keys.frame_indices, vec![0x103, 7]);
    assert_eq!(keys.values, vec![vec![1, 2, 3, 4], vec![5, 6, 7, 8]]);
}
