use ssbh_data::anim_data::buffers::compressed_bytes::{compressed_float_track_to_bytes, parse_compressed_float_track};
use ssbh_data::anim_data::buffers::compressed_floats::{
    create_compressed_float_track, read_compressed_inner_floats, sign_bit_past_buffer_end, write_plan_index_list,
    FloatTrackKind, FloatValue,
};
use ssbh_data::anim_data::compression::{CompressionFlags, F32Compression};
use ssbh_data::anim_data::error::Error;

fn hex(s: &str) -> Vec<u8> {
    let s = s.replace("0x", "");
    let digits: Vec<u8> = s.bytes().filter(|c| c.is_ascii_hexdigit()).collect();
    digits
        .chunks(2)
        .map(|p| u8::from_str_radix(std::str::from_utf8(p).unwrap(), 16).unwrap())
        .collect()
}

fn vec3(x: f32, y: f32, z: f32) -> [f32; 3] {
    [x, y, z]
}

fn vec4(x: f32, y: f32, z: f32, w: f32) -> [f32; 4] {
    [x, y, z, w]
}

fn quat(x: f32, y: f32, z: f32, w: f32) -> [f32; 4] {
    [x, y, z, w]
}

#[derive(Debug, Clone, PartialEq)]
struct UvTransform {
    scale_u: f32,
    scale_v: f32,
    rotation: f32,
    translate_u: f32,
    translate_v: f32,
}

#[derive(Debug, Clone, PartialEq)]
struct Transform {
    translation: [f32; 3],
    rotation: [f32; 4],
    scale: [f32; 3],
}

#[derive(Debug, Clone, PartialEq)]
enum TrackValues {
    Float(Vec<f32>),
    Vector4(Vec<[f32; 4]>),
    UvTransform(Vec<UvTransform>),
    Transform(Vec<Transform>),
}

/// The float a decoded component stands for: a stored code maps linearly onto its range.
fn component(v: &FloatValue) -> f32 {
    match *v {
        FloatValue::Stored { code, compression } => {
            let min = f32::from_bits(compression.min);
            let max = f32::from_bits(compression.max);
            let scale = (1u64 << compression.bit_count) - 1;
            let t = code as f64 / scale as f64;
            (min as f64 * (1.0 - t) + max as f64 * t) as f32
        }
        FloatValue::Default(bits) => f32::from_bits(bits),
        FloatValue::RotationW { .. } => panic!("rotation w is not a stored component"),
    }
}

fn rotation_w(x: f32, y: f32, z: f32, negative: bool) -> f32 {
    let w2 = 1.0 - (x * x + y * y + z * z);
    let w = if w2.is_sign_negative() { 0.0 } else { w2.sqrt() };
    if negative {
        -w
    } else {
        w
    }
}

fn decode(data: &[u8], kind: FloatTrackKind, count: usize) -> Result<Vec<Vec<FloatValue>>, Error> {
    let (n, m) = match kind {
        FloatTrackKind::Float => (1, 1),
        FloatTrackKind::Vector4 => (4, 4),
        FloatTrackKind::UvTransform => (5, 5),
        FloatTrackKind::Transform => (9, 11),
    };
    let (header, compressions) = parse_compressed_float_track(data, n, m)?;
    assert!(!sign_bit_past_buffer_end(&header, &compressions, kind, count));
    read_compressed_inner_floats(&header, &compressions, kind, count)
}

/// Decodes a compressed track and computes its floats.
fn read_compressed_track(data: &[u8], kind: FloatTrackKind, count: usize) -> Result<(TrackValues, bool), Error> {
    let values = decode(data, kind, count)?;
    Ok(match kind {
        FloatTrackKind::Float => (TrackValues::Float(values.iter().map(|v| component(&v[0])).collect()), false),
        FloatTrackKind::Vector4 => (
            TrackValues::Vector4(values.iter().map(|v| [0, 1, 2, 3].map(|i| component(&v[i]))).collect()),
            false,
        ),
        FloatTrackKind::UvTransform => (
            TrackValues::UvTransform(
                values
                    .iter()
                    .map(|v| UvTransform {
                        scale_u: component(&v[0]),
                        scale_v: component(&v[1]),
                        rotation: component(&v[2]),
                        translate_u: component(&v[3]),
                        translate_v: component(&v[4]),
                    })
                    .collect(),
            ),
            false,
        ),
        FloatTrackKind::Transform => {
            let compensate_scale = values
                .first()
                .map(|v| matches!(v[10], FloatValue::Default(c) if c != 0))
                .unwrap_or_default();
            let transforms = values
                .iter()
                .map(|v| {
                    let (x, y, z) = (component(&v[3]), component(&v[4]), component(&v[5]));
                    let w = match v[6] {
                        FloatValue::RotationW { negative } => rotation_w(x, y, z, negative),
                        other => component(&other),
                    };
                    Transform {
                        translation: [7, 8, 9].map(|i| component(&v[i])),
                        rotation: [x, y, z, w],
                        scale: [0, 1, 2].map(|i| component(&v[i])),
                    }
                })
                .collect();
            (TrackValues::Transform(transforms), compensate_scale)
        }
    })
}

#[test]
fn buffers_read_compressed_uv_transform_multiple_frames() {
    // stage/kirby_greens/normal/motion/whispy_set/whispy_set_turnblowl3.nuanmb, _sfx_GrdGreensGrassAM1, nfTexture0[0]
    let data = hex("04000900 60002600 74000000 14000000 2a8e633e 34a13d3f 0a000000 00000000 cdcc4c3e 7a8c623f 0a000000 00000000 00000000 00000000 10000000 00000000 ec51b8be bc7413bd 09000000 00000000 a24536be e17a943e 09000000 00000000 34a13d3f 7a8c623f 00000000 bc7413bd a24536be ffffff1f 80b4931a cfc12071 8de500e6 535555");

    let (values, compensate_scale) = read_compressed_track(&data, FloatTrackKind::UvTransform, 4)
    .unwrap();

    assert!(!compensate_scale);

    // TODO: This is just a guess based on the flags.
    assert_eq!(
        values,
        TrackValues::UvTransform(vec![
            UvTransform {
                scale_u: 0.740741,
                scale_v: 0.884956,
                rotation: 0.0,
                translate_u: -0.036,
                translate_v: -0.178,
            },
            UvTransform {
                scale_u: 0.5881758,
                scale_v: 0.64123756,
                rotation: 0.0,
                translate_u: -0.0721409,
                translate_v: -0.12579648,
            },
            UvTransform {
                scale_u: 0.48781726,
                scale_v: 0.5026394,
                rotation: 0.0,
                translate_u: -0.1082818,
                translate_v: -0.07359296,
            },
            UvTransform {
                scale_u: 0.4168567,
                scale_v: 0.41291887,
                rotation: 0.0,
                translate_u: -0.14378865,
                translate_v: -0.02230529,
            },
        ])
    );
}

#[test]
fn buffers_read_compressed_uv_transform_multiple_frames_uniform_scale() {
    // fighter/mario/motion/body/c00/f01damageflymeteor.nuanmb, EyeL0_phong15__S_CUS_0x9ae11165_____NORMEXP16___VTC_, DiffuseUVTransform
    let data = hex("04000B00 60001600 74000000 25000000 3333333F 9A99593F 08000000 00000000 3333333F 9A99593F 10000000 00000000 00000000 00000000 10000000 00000000 9A9919BE 9A9999BD 07000000 00000000 9A99993D 9A99193E 07000000 00000000 9A99593F 9A99593F 00000000 9A9999BD 9A99993D FF7FC0FF 1FF0FF07 FCFF01FF 7FC0FF1F F0FF07FC FF01FF7F C0FF1FF0 FF07FCFF 01FF7FC0 FF1F108F 3F309B33 9B4D1999 AC399331 3B1CF000 803F00E0 0F00F803 00FE0080 3F00E00F 00F80300 FE00803F 00E00F00 F80300FE 00803F00 E00F00F8 0300FE00 803F");
    let (values, compensate_scale) = read_compressed_track(&data, FloatTrackKind::UvTransform, 37)
    .unwrap();

    assert!(!compensate_scale);

    assert_eq!(
        values,
        TrackValues::UvTransform(vec![
            UvTransform {
                scale_u: 0.85,
                scale_v: 0.85,
                rotation: 0.0,
                translate_u: -0.075,
                translate_v: 0.075,
            },
            UvTransform {
                scale_u: 0.85,
                scale_v: 0.85,
                rotation: 0.0,
                translate_u: -0.075,
                translate_v: 0.075,
            },
            UvTransform {
                scale_u: 0.85,
                scale_v: 0.85,
                rotation: 0.0,
                translate_u: -0.075,
                translate_v: 0.075,
            },
            UvTransform {
                scale_u: 0.85,
                scale_v: 0.85,
                rotation: 0.0,
                translate_u: -0.075,
                translate_v: 0.075,
            },
            UvTransform {
                scale_u: 0.85,
                scale_v: 0.85,
                rotation: 0.0,
                translate_u: -0.075,
                translate_v: 0.075,
            },
            UvTransform {
                scale_u: 0.85,
                scale_v: 0.85,
                rotation: 0.0,
                translate_u: -0.075,
                translate_v: 0.075,
            },
            UvTransform {
                scale_u: 0.85,
                scale_v: 0.85,
                rotation: 0.0,
                translate_u: -0.075,
                translate_v: 0.075,
            },
            UvTransform {
                scale_u: 0.85,
                scale_v: 0.85,
                rotation: 0.0,
                translate_u: -0.075,
                translate_v: 0.075,
            },
            UvTransform {
                scale_u: 0.85,
                scale_v: 0.85,
                rotation: 0.0,
                translate_u: -0.075,
                translate_v: 0.075,
            },
            UvTransform {
                scale_u: 0.85,
                scale_v: 0.85,
                rotation: 0.0,
                translate_u: -0.075,
                translate_v: 0.075,
            },
            UvTransform {
                scale_u: 0.85,
                scale_v: 0.85,
                rotation: 0.0,
                translate_u: -0.075,
                translate_v: 0.075,
            },
            UvTransform {
                scale_u: 0.85,
                scale_v: 0.85,
                rotation: 0.0,
                translate_u: -0.075,
                translate_v: 0.075,
            },
            UvTransform {
                scale_u: 0.85,
                scale_v: 0.85,
                rotation: 0.0,
                translate_u: -0.075,
                translate_v: 0.075,
            },
            UvTransform {
                scale_u: 0.85,
                scale_v: 0.85,
                rotation: 0.0,
                translate_u: -0.075,
                translate_v: 0.075,
            },
            UvTransform {
                scale_u: 0.84176475,
                scale_v: 0.84176475,
                rotation: 0.0,
                translate_u: -0.07913386,
                translate_v: 0.07913386,
            },
            UvTransform {
                scale_u: 0.82,
                scale_v: 0.82,
                rotation: 0.0,
                translate_u: -0.08976378,
                translate_v: 0.08976378,
            },
            UvTransform {
                scale_u: 0.7911765,
                scale_v: 0.7911765,
                rotation: 0.0,
                translate_u: -0.10452756,
                translate_v: 0.10452756,
            },
            UvTransform {
                scale_u: 0.7588235,
                scale_v: 0.7588235,
                rotation: 0.0,
                translate_u: -0.120472446,
                translate_v: 0.120472446,
            },
            UvTransform {
                scale_u: 0.73,
                scale_v: 0.73,
                rotation: 0.0,
                translate_u: -0.13523622,
                translate_v: 0.13523622,
            },
            UvTransform {
                scale_u: 0.70823526,
                scale_v: 0.70823526,
                rotation: 0.0,
                translate_u: -0.14586614,
                translate_v: 0.14586614,
            },
            UvTransform {
                scale_u: 0.7,
                scale_v: 0.7,
                rotation: 0.0,
                translate_u: -0.15,
                translate_v: 0.15,
            },
            UvTransform {
                scale_u: 0.7,
                scale_v: 0.7,
                rotation: 0.0,
                translate_u: -0.15,
                translate_v: 0.15,
            },
            UvTransform {
                scale_u: 0.7,
                scale_v: 0.7,
                rotation: 0.0,
                translate_u: -0.15,
                translate_v: 0.15,
            },
            UvTransform {
                scale_u: 0.7,
                scale_v: 0.7,
                rotation: 0.0,
                translate_u: -0.15,
                translate_v: 0.15,
            },
            UvTransform {
                scale_u: 0.7,
                scale_v: 0.7,
                rotation: 0.0,
                translate_u: -0.15,
                translate_v: 0.15,
            },
            UvTransform {
                scale_u: 0.7,
                scale_v: 0.7,
                rotation: 0.0,
                translate_u: -0.15,
                translate_v: 0.15,
            },
            UvTransform {
                scale_u: 0.7,
                scale_v: 0.7,
                rotation: 0.0,
                translate_u: -0.15,
                translate_v: 0.15,
            },
            UvTransform {
                scale_u: 0.7,
                scale_v: 0.7,
                rotation: 0.0,
                translate_u: -0.15,
                translate_v: 0.15,
            },
            UvTransform {
                scale_u: 0.7,
                scale_v: 0.7,
                rotation: 0.0,
                translate_u: -0.15,
                translate_v: 0.15,
            },
            UvTransform {
                scale_u: 0.7,
                scale_v: 0.7,
                rotation: 0.0,
                translate_u: -0.15,
                translate_v: 0.15,
            },
            UvTransform {
                scale_u: 0.7,
                scale_v: 0.7,
                rotation: 0.0,
                translate_u: -0.15,
                translate_v: 0.15,
            },
            UvTransform {
                scale_u: 0.7,
                scale_v: 0.7,
                rotation: 0.0,
                translate_u: -0.15,
                translate_v: 0.15,
            },
            UvTransform {
                scale_u: 0.7,
                scale_v: 0.7,
                rotation: 0.0,
                translate_u: -0.15,
                translate_v: 0.15,
            },
            UvTransform {
                scale_u: 0.7,
                scale_v: 0.7,
                rotation: 0.0,
                translate_u: -0.15,
                translate_v: 0.15,
            },
            UvTransform {
                scale_u: 0.7,
                scale_v: 0.7,
                rotation: 0.0,
                translate_u: -0.15,
                translate_v: 0.15,
            },
            UvTransform {
                scale_u: 0.7,
                scale_v: 0.7,
                rotation: 0.0,
                translate_u: -0.15,
                translate_v: 0.15,
            },
            UvTransform {
                scale_u: 0.7,
                scale_v: 0.7,
                rotation: 0.0,
                translate_u: -0.15,
                translate_v: 0.15,
            },
        ])
    );
}

#[test]
fn read_compressed_float_all_equal() {
    // This is an edge case that doesn't appear in game.
    // It's possible to have a high frame count with 0 bits per entry.
    // The default value is used for all entries.
    // A naive implementation will likely crash.
    let data = hex("04000000 20000000 24000000 FFFFFFFF cdcccc3e cdcccc3e 10000000 00000000 cdcccc3e");
    let (values, compensate_scale) = read_compressed_track(&data, FloatTrackKind::Float, 0xFFFFFFFF)
    .unwrap();

    assert!(!compensate_scale);

    assert_eq!(values, TrackValues::Float(vec![0.4]));
}

#[test]
fn buffers_read_compressed_float_multiple_frames() {
    // pacman/model/body/c00/model.nuanmb, phong3__phong0__S_CUS_0xa2001001___7__AT_GREATER128___VTC__NORMEXP16___CULLNONE_A_AB_SORT, CustomFloat2
    let data = hex("04000000 20000200 24000000 05000000 00000000 00004040 02000000 00000000 00000000 e403");
    let (values, compensate_scale) = read_compressed_track(&data, FloatTrackKind::Float, 5)
    .unwrap();

    assert!(!compensate_scale);

    assert_eq!(values, TrackValues::Float(vec![0.0, 1.0, 2.0, 3.0, 3.0]));
}

#[test]
fn buffers_read_compressed_vector4_multiple_frames() {
    // The default data (00000000 00000000 3108ac3d bc74133e)
    // uses the 0 bit count of one compression entry and the min/max of the next.
    // TODO: Is it worth adding code complexity to support this optimization?

    // fighter/cloud/motion/body/c00/b00guardon.nuanmb, EyeL, CustomVector31
    let data = hex("04000000 50000300 60000000 08000000 0000803f 0000803f 00000000 00000000 0000803f 0000803f 00000000 00000000 3108ac3d bc74133e 03000000 00000000 00000000 00000000 00000000 00000000 0000803f 0000803f 3108ac3d 00000000 88c6fa");
    let (values, compensate_scale) = read_compressed_track(&data, FloatTrackKind::Vector4, 8)
    .unwrap();

    assert!(!compensate_scale);

    assert_eq!(
        values,
        TrackValues::Vector4(vec![
            vec4(1.0, 1.0, 0.084, 0.0),
            vec4(1.0, 1.0, 0.09257143, 0.0),
            vec4(1.0, 1.0, 0.10114285, 0.0),
            vec4(1.0, 1.0, 0.109714285, 0.0),
            vec4(1.0, 1.0, 0.11828571, 0.0),
            vec4(1.0, 1.0, 0.12685713, 0.0),
            vec4(1.0, 1.0, 0.13542856, 0.0),
            vec4(1.0, 1.0, 0.144, 0.0),
        ])
    );
}

#[test]
fn read_compressed_transform_multiple_frames_flags_0x6_null_default() {
    // assist/shovelknight/model/body/c00/model.nuanmb, ArmL, Transform
    // Default pointer set to 0.
    let data = hex("04000600 00002b00 cc000000 02000000 0000803f 0000803f 10000000 00000000 0000803f 0000803f 10000000 00000000 0000803f 0000803f 10000000 00000000 00000000 b9bc433d 0d000000 00000000 e27186bd 00000000 0d000000 00000000 00000000 ada2273f 10000000 00000000 16a41d40 16a41d40 10000000 00000000 00000000 00000000 10000000 00000000 00000000 00000000 10000000 00000000 0000803f 0000803f 0000803f 00000000 00000000 00000000 0000803f 16a41d40 00000000 00000000 00000000 00e0ff03 00f8ff00 e0ff1f");

    let result = read_compressed_track(&data, FloatTrackKind::Transform, 2);
    assert!(matches!(result, Err(Error::MalformedCompressionHeader)));
}

#[test]
fn read_compressed_transform_multiple_frames_flags_0x6() {
    // assist/shovelknight/model/body/c00/model.nuanmb, ArmL, Transform
    let data = hex("04000600 a0002b00 cc000000 02000000 0000803f 0000803f 10000000 00000000 0000803f 0000803f 10000000 00000000 0000803f 0000803f 10000000 00000000 00000000 b9bc433d 0d000000 00000000 e27186bd 00000000 0d000000 00000000 00000000 ada2273f 10000000 00000000 16a41d40 16a41d40 10000000 00000000 00000000 00000000 10000000 00000000 00000000 00000000 10000000 00000000 0000803f 0000803f 0000803f 00000000 00000000 00000000 0000803f 16a41d40 00000000 00000000 00000000 00e0ff03 00f8ff00 e0ff1f");

    let (values, compensate_scale) = read_compressed_track(&data, FloatTrackKind::Transform, 2)
    .unwrap();

    assert!(!compensate_scale);

    assert_eq!(
        TrackValues::Transform(vec![
            Transform {
                translation: vec3(2.46314, 0.0, 0.0),
                rotation: quat(0.0, 0.0, 0.0, 1.0),
                scale: vec3(1.0, 1.0, 1.0),
            },
            Transform {
                translation: vec3(2.46314, 0.0, 0.0),
                rotation: quat(0.0477874, -0.0656469, 0.654826, 0.7514052),
                scale: vec3(1.0, 1.0, 1.0),
            }
        ]),
        values
    );
}

#[test]
fn read_compressed_transform_multiple_frames_flags_0x3() {
    // fighter/buddy/motion/body/c00/g00ceildamage.nuanmb", K_wingL3, Transform
    let data = hex("04000300 A0000900 CC000000 09000000 0000003F 0000803F 09000000 00000000 0000003F 0000803F 10000000 00000000 0000003F 0000803F 10000000 00000000 1D13533D 1D13533D 10000000 00000000 03BA8ABD 03BA8ABD 10000000 00000000 16139BBE 16139BBE 10000000 00000000 CDCCEC3F CDCCEC3F 10000000 00000000 00000000 00000000 10000000 00000000 00000000 00000000 10000000 00000000 0000803F 0000803F 0000803F 1D13533D 03BA8ABD 16139BBE 1500733F CDCCEC3F 00000000 00000000 00000000 FFFFFF37 0F7A2600 003301");

    let (values, compensate_scale) = read_compressed_track(&data, FloatTrackKind::Transform, 9)
    .unwrap();

    assert!(!compensate_scale);

    assert_eq!(
        TrackValues::Transform(vec![
            Transform {
                scale: vec3(1.0, 1.0, 1.0),
                rotation: quat(0.0515319, -0.0677376, -0.30288, 0.94922),
                translation: vec3(1.85, 0.0, 0.0),
            },
            Transform {
                scale: vec3(1.0, 1.0, 1.0),
                rotation: quat(0.0515319, -0.0677376, -0.30288, 0.94922),
                translation: vec3(1.85, 0.0, 0.0),
            },
            Transform {
                scale: vec3(1.0, 1.0, 1.0),
                rotation: quat(0.0515319, -0.0677376, -0.30288, 0.94922),
                translation: vec3(1.85, 0.0, 0.0),
            },
            Transform {
                scale: vec3(0.97553813, 0.97553813, 0.97553813),
                rotation: quat(0.0515319, -0.0677376, -0.30288, 0.94922),
                translation: vec3(1.85, 0.0, 0.0),
            },
            Transform {
                scale: vec3(0.907045, 0.907045, 0.907045),
                rotation: quat(0.0515319, -0.0677376, -0.30288, 0.94922),
                translation: vec3(1.85, 0.0, 0.0),
            },
            Transform {
                scale: vec3(0.8003914, 0.8003914, 0.8003914),
                rotation: quat(0.0515319, -0.0677376, -0.30288, 0.94922),
                translation: vec3(1.85, 0.0, 0.0),
            },
            Transform {
                scale: vec3(0.5, 0.5, 0.5),
                rotation: quat(0.0515319, -0.0677376, -0.30288, 0.94922),
                translation: vec3(1.85, 0.0, 0.0),
            },
            Transform {
                scale: vec3(0.5, 0.5, 0.5),
                rotation: quat(0.0515319, -0.0677376, -0.30288, 0.94922),
                translation: vec3(1.85, 0.0, 0.0),
            },
            Transform {
                scale: vec3(0.8003914, 0.8003914, 0.8003914),
                rotation: quat(0.0515319, -0.0677376, -0.30288, 0.94922),
                translation: vec3(1.85, 0.0, 0.0),
            },
        ]),
        values
    );
}

#[test]
fn read_compressed_transform_multiple_frames_flags_0xc() {
    // fighter/buddy/motion/body/c00/a03jumpsquat.nuanmb", S_Waistbag1, Transform
    let data = hex("04000C00 A0001C00 CC000000 08000000 0000803F 0000803F 10000000 00000000 24D3453F 24D3453F 10000000 00000000 0000803F 0000803F 10000000 00000000 EB8C53BF 809D4BBF 03000000 00000000 0DDF82BE 1C9761BE 03000000 00000000 6762D2BE 61A4C7BE 03000000 00000000 B8C81D3F 03438E3F 07000000 00000000 FBCB863F CEC28A3F 04000000 00000000 A1BA713F 0F62AB3F 07000000 00000000 0000803F 24D3453F 0000803F EB8C53BF 1C9761BE 6762D2BE D9B1A13E B8C81D3F 85B6883F A1BA713F 00000000 38000710 878213DB 80DBE378 ED67C7FF AF77DCBF 7BC7F9E4 777C0F7F");

    let (values, compensate_scale) = read_compressed_track(&data, FloatTrackKind::Transform, 8)
    .unwrap();

    assert!(!compensate_scale);

    assert_eq!(
        TrackValues::Transform(vec![
            Transform {
                scale: vec3(1.0, 0.772753, 1.0),
                rotation: quat(-0.826369, -0.220303, -0.410907, 0.3158106),
                translation: vec3(0.616344, 1.0675527, 0.944254),
            },
            Transform {
                scale: vec3(1.0, 0.772753, 1.0),
                rotation: quat(-0.82194084, -0.22534657, -0.40790972, 0.32747796),
                translation: vec3(0.6943087, 1.0696173, 1.0033),
            },
            Transform {
                scale: vec3(1.0, 0.772753, 1.0),
                rotation: quat(-0.81308454, -0.24047728, -0.40191513, 0.3457288),
                translation: vec3(0.86583114, 1.0758113, 1.1338228),
            },
            Transform {
                scale: vec3(1.0, 0.772753, 1.0),
                rotation: quat(-0.79980016, -0.25056443, -0.39292327, 0.37834975),
                translation: vec3(1.0334553, 1.0820053, 1.2643455),
            },
            Transform {
                scale: vec3(1.0, 0.772753, 1.0),
                rotation: quat(-0.795372, -0.255608, -0.389926, 0.38730562),
                translation: vec3(1.11142, 1.08407, 1.3233916),
            },
            Transform {
                scale: vec3(1.0, 0.772753, 1.0),
                rotation: quat(-0.795372, -0.255608, -0.389926, 0.38730562),
                translation: vec3(1.1075218, 1.0758113, 1.3264992),
            },
            Transform {
                scale: vec3(1.0, 0.772753, 1.0),
                rotation: quat(-0.795372, -0.255608, -0.389926, 0.38730562),
                translation: vec3(1.0997254, 1.0613587, 1.3358223),
            },
            Transform {
                scale: vec3(1.0, 0.772753, 1.0),
                rotation: quat(-0.795372, -0.255608, -0.389926, 0.38730562),
                translation: vec3(1.0958271, 1.0531, 1.33893),
            },
        ]),
        values
    );
}

#[test]
fn read_compressed_transform_multiple_frames_flags_0xd() {
    // fighter/diddy/motion/body/c00/d02specialhistart.nuanmb, Shaft, Transform
    let data = hex("04000D00 A0007100 CC000000 08000000 CDCCCC3D 0x5EA2D63F 12000000 00000000 CDCCCC3D BE9F8A3F 11000000 00000000 CDCCCC3D 06D8A73F 11000000 00000000 20B2F0BE 7BA3EEBE 09000000 00000000 D52008BF 503807BF 09000000 00000000 20B2F0BE 7BA3EEBE 09000000 00000000 2AA73DBD 7120B43F 12000000 00000000 E73A79C0 C02665C0 0F000000 00000000 00000000 00000000 00000000 00000000 CDCCCC3D CDCCCC3D CDCCCC3D 20B2F0BE 503807BF 20B2F0BE 5038073F 7DD0933F C02665C0 00000000 00000000 00000000 000000E0 3F0014A7 FFFF0000 1017A0F7 C0486E23 E54B33BA 71DA86B8 C05548A6 B2990000 F01CF9FF 1FE2C230 A8790BE7 B94FC168 B10A3787 4B71984B 672D25BB 16DE8569 B0FFFFFF FF3793D9 FCFFBF0E 4CA8643E 355FC567 3791BDD2 74140C3B 2489A9B3 F1FD0FE0 FF6CCF00 00");

    let (values, compensate_scale) = read_compressed_track(&data, FloatTrackKind::Transform, 8)
    .unwrap();

    assert!(!compensate_scale);

    assert_eq!(
        TrackValues::Transform(vec![
            Transform {
                scale: vec3(0.1, 0.1, 0.1),
                rotation: quat(-0.470109, -0.528203, -0.470109, 0.52820134),
                translation: vec3(1.1547999, -3.58049, 0.0),
            },
            Transform {
                scale: vec3(0.1, 0.10553482, 0.13661444),
                rotation: quat(-0.46955857, -0.528689, -0.46955857, 0.52869403),
                translation: vec3(1.1515895, -3.6232598, 0.0),
            },
            Transform {
                scale: vec3(0.77540535, 0.12213927, 0.25775075),
                rotation: quat(-0.46890596, -0.52927226, -0.46890596, 0.5292686),
                translation: vec3(-0.046302, -3.806919, 0.0),
            },
            Transform {
                scale: vec3(1.67683, 0.14427854, 0.48032996),
                rotation: quat(-0.46819827, -0.52989715, -0.46819827, 0.529896),
                translation: vec3(0.07283452, -3.8389556, 0.0),
            },
            Transform {
                scale: vec3(1.456122, 0.68003076, 0.82129157),
                rotation: quat(-0.46750635, -0.53050816, -0.46750635, 0.53050613),
                translation: vec3(0.98621446, -3.779172, 0.0),
            },
            Transform {
                scale: vec3(0.69639033, 1.083, 1.31128),
                rotation: quat(-0.4668773, -0.53105664, -0.4668773, 0.5310649),
                translation: vec3(1.40724, -3.7760124, 0.0),
            },
            Transform {
                scale: vec3(0.7199998, 0.69372535, 1.2419325),
                rotation: quat(-0.4663898, -0.5314871, -0.4663898, 0.53149086),
                translation: vec3(1.2803185, -3.835011, 0.0),
            },
            Transform {
                scale: vec3(0.9999991, 1.0000002, 1.0000018),
                rotation: quat(-0.466091, -0.531751, -0.466091, 0.5317511),
                translation: vec3(1.1314394, -3.89422, 0.0),
            },
        ]),
        values
    );
}

const TRANSFORM_0X6: &str = "04000600 a0002b00 cc000000 02000000 0000803f 0000803f 10000000 00000000 0000803f 0000803f 10000000 00000000 0000803f 0000803f 10000000 00000000 00000000 b9bc433d 0d000000 00000000 e27186bd 00000000 0d000000 00000000 00000000 ada2273f 10000000 00000000 16a41d40 16a41d40 10000000 00000000 00000000 00000000 10000000 00000000 00000000 00000000 10000000 00000000 0000803f 0000803f 0000803f 00000000 00000000 00000000 0000803f 16a41d40 00000000 00000000 00000000 00e0ff03 00f8ff00 e0ff1f";

#[test]
fn decode_floats_unexpected_bit_count() {
    // The compression stores 2 bits per value but the header says 3.
    let data = hex("04000000 20000300 24000000 05000000 00000000 00004040 02000000 00000000 00000000 e403");
    let result = decode(&data, FloatTrackKind::Float, 5);
    assert!(matches!(result, Err(Error::UnexpectedBitCount { expected: 2, actual: 3 })));
}

#[test]
fn decode_floats_missing_buffer() {
    let data = hex("04000000 20000200 00000000 05000000 00000000 00004040 02000000 00000000 00000000");
    let result = decode(&data, FloatTrackKind::Float, 5);
    assert!(matches!(result, Err(Error::MalformedCompressionHeader)));
}

#[test]
fn decode_floats_not_enough_bits() {
    // 16 bits hold 8 values of 2 bits.
    let data = hex("04000000 20000200 24000000 05000000 00000000 00004040 02000000 00000000 00000000 e403");
    assert_eq!(decode(&data, FloatTrackKind::Float, 8).unwrap().len(), 8);
    let result = decode(&data, FloatTrackKind::Float, 9);
    assert!(matches!(result, Err(Error::BitError(_))));
}

#[test]
fn decode_float_codes_and_defaults() {
    let data = hex("04000000 20000200 24000000 05000000 00000000 00004040 02000000 00000000 00000000 e403");
    let values = decode(&data, FloatTrackKind::Float, 5).unwrap();
    let codes: Vec<u32> = values
        .iter()
        .map(|v| match v[0] {
            FloatValue::Stored { code, .. } => code,
            _ => panic!("expected a stored code"),
        })
        .collect();
    assert_eq!(codes, vec![0, 1, 2, 3, 3]);
}

#[test]
fn decode_transform_layout() {
    let values = decode(&hex(TRANSFORM_0X6), FloatTrackKind::Transform, 2).unwrap();
    assert_eq!(values.len(), 2);
    for v in &values {
        assert_eq!(v.len(), 11);
        // Scale has a single value in its range and takes the default.
        assert_eq!(v[0], FloatValue::Default(1.0f32.to_bits()));
        assert!(matches!(v[6], FloatValue::RotationW { negative: false }));
        // The scale compensation comes from the default.
        assert_eq!(v[10], FloatValue::Default(0));
    }
}

#[test]
fn uv_uniform_scale_shares_scale_code() {
    let data = hex("04000B00 60001600 74000000 25000000 3333333F 9A99593F 08000000 00000000 3333333F 9A99593F 10000000 00000000 00000000 00000000 10000000 00000000 9A9919BE 9A9999BD 07000000 00000000 9A99993D 9A99193E 07000000 00000000 9A99593F 9A99593F 00000000 9A9999BD 9A99993D FF7FC0FF 1FF0FF07 FCFF01FF 7FC0FF1F F0FF07FC FF01FF7F C0FF1FF0 FF07FCFF 01FF7FC0 FF1F108F 3F309B33 9B4D1999 AC399331 3B1CF000 803F00E0 0F00F803 00FE0080 3F00E00F 00F80300 FE00803F 00E00F00 F80300FE 00803F00 E00F00F8 0300FE00 803F");
    let values = decode(&data, FloatTrackKind::UvTransform, 37).unwrap();
    for v in &values {
        assert_eq!(v[0], v[1]);
    }
}

#[test]
fn sign_bit_just_past_buffer_end() {
    // Frames take 43 bits, so the sign bit of the third frame is bit 128 of a 16 byte buffer.
    let mut data = hex(TRANSFORM_0X6);
    data.extend_from_slice(&[0u8; 5]);
    let (header, compressions) = parse_compressed_float_track(&data, 9, 11).unwrap();
    assert!(!sign_bit_past_buffer_end(&header, &compressions, FloatTrackKind::Transform, 2));
    assert!(sign_bit_past_buffer_end(&header, &compressions, FloatTrackKind::Transform, 3));
}

/// The bits of a local track's values, for the library's flag choice.
fn library_values(values: &TrackValues) -> ssbh_data::anim_data::TrackValues {
    match values {
        TrackValues::Float(v) => ssbh_data::anim_data::TrackValues::Float(v.iter().map(|x| x.to_bits()).collect()),
        TrackValues::Vector4(v) => ssbh_data::anim_data::TrackValues::Vector4(v.iter().map(|x| x.map(f32::to_bits)).collect()),
        TrackValues::UvTransform(v) => ssbh_data::anim_data::TrackValues::UvTransform(
            v.iter()
                .map(|t| ssbh_data::anim_data::UvTransform {
                    scale_u: t.scale_u.to_bits(),
                    scale_v: t.scale_v.to_bits(),
                    rotation: t.rotation.to_bits(),
                    translate_u: t.translate_u.to_bits(),
                    translate_v: t.translate_v.to_bits(),
                })
                .collect(),
        ),
        TrackValues::Transform(v) => ssbh_data::anim_data::TrackValues::Transform(
            v.iter()
                .map(|t| ssbh_data::anim_data::Transform {
                    scale: t.scale.map(f32::to_bits),
                    rotation: t.rotation.map(f32::to_bits),
                    translation: t.translation.map(f32::to_bits),
                })
                .collect(),
        ),
    }
}

fn compress_f32(value: f32, min: f32, max: f32, bit_count: u64) -> u32 {
    let scale = (1u64 << bit_count) - 1;
    let ratio = (value - min) / (max - min);
    let compressed = ratio * scale as f32;
    compressed as u32
}

/// Writes a compressed track: the smallest value of each component is the default and the
/// range of each component its compression.
fn write_track(values: &TrackValues, compensate_scale: bool) -> Vec<u8> {
    let (kind, components, signs): (FloatTrackKind, Vec<Vec<f32>>, Vec<bool>) = match values {
        TrackValues::Float(v) => (FloatTrackKind::Float, v.iter().map(|x| vec![*x]).collect(), Vec::new()),
        TrackValues::Vector4(v) => (FloatTrackKind::Vector4, v.iter().map(|x| x.to_vec()).collect(), Vec::new()),
        TrackValues::UvTransform(v) => (
            FloatTrackKind::UvTransform,
            v.iter().map(|t| vec![t.scale_u, t.scale_v, t.rotation, t.translate_u, t.translate_v]).collect(),
            Vec::new(),
        ),
        TrackValues::Transform(v) => (
            FloatTrackKind::Transform,
            v.iter()
                .map(|t| t.scale.iter().chain(t.rotation.iter()).chain(t.translation.iter()).copied().collect())
                .collect(),
            v.iter().map(|t| t.rotation[3].is_sign_negative()).collect(),
        ),
    };
    let width = components.first().map(|c| c.len()).unwrap_or(0);
    let min: Vec<f32> = (0..width).map(|i| components.iter().map(|c| c[i]).reduce(f32::min).unwrap_or(0.0)).collect();
    let max: Vec<f32> = (0..width).map(|i| components.iter().map(|c| c[i]).reduce(f32::max).unwrap_or(0.0)).collect();
    let compressed: Vec<usize> = match kind {
        FloatTrackKind::Transform => vec![0, 1, 2, 3, 4, 5, 7, 8, 9],
        _ => (0..width).collect(),
    };
    let compressions: Vec<F32Compression> = compressed
        .iter()
        .map(|&i| F32Compression::from_range(min[i].to_bits(), max[i].to_bits()))
        .collect();
    let mut defaults: Vec<u32> = min.iter().map(|m| m.to_bits()).collect();
    if kind == FloatTrackKind::Transform {
        defaults.push(if compensate_scale { 1 } else { 0 });
    }
    let flags = CompressionFlags::from_track(&library_values(values), compensate_scale);
    let plan = write_plan_index_list(kind, flags);
    let frames: Vec<(Vec<u32>, bool)> = components
        .iter()
        .enumerate()
        .map(|(k, c)| {
            let codes = plan
                .iter()
                .map(|&j| {
                    let compression = compressions[j];
                    if compression.bit_count == 0 {
                        0
                    } else {
                        compress_f32(
                            c[compressed[j]],
                            f32::from_bits(compression.min),
                            f32::from_bits(compression.max),
                            compression.bit_count,
                        )
                    }
                })
                .collect();
            (codes, signs.get(k).copied().unwrap_or(false))
        })
        .collect();
    let header = create_compressed_float_track(kind, flags, &defaults, &compressions, &frames);
    compressed_float_track_to_bytes(&header, &compressions, defaults.len())
}

#[test]
fn buffers_write_compressed_uv_transform_multiple_frames() {
    let values = vec![
        UvTransform {
            scale_u: -1.0,
            scale_v: -2.0,
            rotation: -3.0,
            translate_u: -4.0,
            translate_v: -5.0,
        },
        UvTransform {
            scale_u: 1.0,
            scale_v: 2.0,
            rotation: 3.0,
            translate_u: 4.0,
            translate_v: 5.0,
        },
    ];
    let bytes = write_track(&TrackValues::UvTransform(values.clone()), false);

    // TODO: How to determine a good default value?
    // TODO: Check more examples to see if default is just the min.
    assert_eq!(hex("04000d00 60007800 74000000 02000000 000080BF 0000803F 18000000 00000000 000000C0 00000040 18000000 00000000 000040C0 00004040 18000000 00000000 000080C0 00008040 18000000 00000000 0000A0C0 0000A040 18000000 00000000 000080BF 000000C0 000040C0 000080C0 0000A0C0 000000 000000 000000 000000 000000 FFFFFF FFFFFF FFFFFF FFFFFF FFFFFF"), bytes);

    assert_eq!(
        TrackValues::UvTransform(values),
        read_compressed_track(&bytes, FloatTrackKind::UvTransform, 2).unwrap().0
    );
}


#[test]
fn buffers_write_compressed_floats_multiple_frame() {
    // Test that the min/max and bit counts are used properly
    let values = vec![0.5, 2.0];
    let bytes = write_track(&TrackValues::Float(values.clone()), false);

    assert_eq!(hex("04000000 20001800 24000000 02000000 0000003F 00000040 18000000 00000000 0000003F 000000 FFFFFF"), bytes);

    assert_eq!(
        TrackValues::Float(values),
        read_compressed_track(&bytes, FloatTrackKind::Float, 2).unwrap().0
    );
}


#[test]
fn buffers_write_compressed_vector4_multiple_frames() {
    let values = vec![vec4(-1.0, -2.0, -3.0, -4.0), vec4(1.0, 2.0, 3.0, 4.0)];
    let bytes = write_track(&TrackValues::Vector4(values), false);

    assert_eq!(hex("04000000 50006000 60000000 02000000 000080BF 0000803F 18000000 00000000 000000C0 00000040 18000000 00000000 000040C0 00004040 18000000 00000000 000080C0 00008040 18000000 00000000 000080BF 000000C0 000040C0 000080C0 000000 000000 000000 000000 FFFFFF FFFFFF FFFFFF FFFFFF"), bytes);

    assert_eq!(
        TrackValues::Vector4(vec![vec4(-1.0, -2.0, -3.0, -4.0), vec4(1.0, 2.0, 3.0, 4.0)]),
        read_compressed_track(&bytes, FloatTrackKind::Vector4, 2).unwrap().0
    );
}


#[test]
fn buffers_write_compressed_vector4_multiple_frames_defaults() {
    let values = vec![vec4(1.0, 2.0, 3.0, -4.0), vec4(1.0, 2.0, 3.0, 4.0)];
    let bytes = write_track(&TrackValues::Vector4(values), false);

    assert_eq!(hex("04000000 50001800 60000000 02000000 0000803F 0000803F 00000000 00000000 00000040 00000040 00000000 00000000 00004040 00004040 00000000 00000000 000080C0 00008040 18000000 00000000 0000803F 00000040 00004040 000080C0 000000 FFFFFF"), bytes);

    assert_eq!(
        TrackValues::Vector4(vec![vec4(1.0, 2.0, 3.0, -4.0), vec4(1.0, 2.0, 3.0, 4.0)]),
        read_compressed_track(&bytes, FloatTrackKind::Vector4, 2).unwrap().0
    );
}


#[test]
fn buffers_write_compressed_transform_multiple_frames() {
    let values = vec![
        Transform {
            translation: vec3(-1.0, -2.0, -3.0),
            rotation: quat(-4.0, -5.0, -6.0, 0.0),
            scale: vec3(-8.0, -9.0, -10.0),
        },
        Transform {
            translation: vec3(1.0, 2.0, 3.0),
            rotation: quat(4.0, 5.0, 6.0, 0.0),
            scale: vec3(8.0, 9.0, 10.0),
        },
    ];

    let bytes = write_track(&TrackValues::Transform(values.clone()), false);

    // TODO: How to determine a good default value?
    // TODO: Check more examples to see if default is just the min.
    assert_eq!(hex("04000d00 a000d900 cc000000 02000000 000000C1 00000041 18000000 00000000 000010C1 00001041 18000000 00000000 000020C1 00002041 18000000 00000000 000080C0 00008040 18000000 00000000 0000A0C0 0000A040 18000000 00000000 0000C0C0 0000C040 18000000 00000000 000080BF 0000803F 18000000 00000000 000000C0 00000040 18000000 00000000 000040C0 00004040 18000000 00000000 000000C1 000010C1 000020C1 000080C0 0000A0C0 0000C0C0 00000000 000080BF 000000C0 000040C0 00000000 000000 000000 000000 000000 000000 000000 000000 000000 000000 FEFFFF FFFFFF FFFFFF FFFFFF FFFFFF FFFFFF FFFFFF FFFFFF FFFFFF 01"), bytes);

    assert_eq!(
        TrackValues::Transform(values),
        read_compressed_track(&bytes, FloatTrackKind::Transform, 2).unwrap().0
    );
}

#[test]
fn created_track_decodes_written_codes() {
    let c = |min: f32, max: f32, bit_count: u64| F32Compression { min: min.to_bits(), max: max.to_bits(), bit_count };
    let compressions = vec![c(0.0, 1.0, 3), c(2.0, 2.0, 0), c(-1.0, 1.0, 5), c(0.0, 4.0, 2)];
    let defaults = vec![0.0f32.to_bits(), 2.0f32.to_bits(), 0.5f32.to_bits(), 1.0f32.to_bits()];
    let frames = vec![(vec![1, 0, 17, 3], false), (vec![7, 0, 0, 2], false), (vec![0, 0, 31, 0], false)];
    let flags = CompressionFlags::new();
    let header = create_compressed_float_track(FloatTrackKind::Vector4, flags, &defaults, &compressions, &frames);
    assert_eq!(header.bits_per_entry, 10);
    let bytes = compressed_float_track_to_bytes(&header, &compressions, 4);
    let values = decode(&bytes, FloatTrackKind::Vector4, 3).unwrap();
    for (v, (codes, _)) in values.iter().zip(frames.iter()) {
        assert_eq!(v[0], FloatValue::Stored { code: codes[0], compression: compressions[0] });
        assert_eq!(v[1], FloatValue::Default(2.0f32.to_bits()));
        assert_eq!(v[2], FloatValue::Stored { code: codes[2], compression: compressions[2] });
        assert_eq!(v[3], FloatValue::Stored { code: codes[3], compression: compressions[3] });
    }
}

#[test]
fn created_transform_track_keeps_rotation_signs() {
    let c = |min: f32, max: f32| F32Compression { min: min.to_bits(), max: max.to_bits(), bit_count: if min == max { 0 } else { 4 } };
    let mut compressions = vec![c(1.0, 1.0); 3];
    compressions.extend([c(0.0, 0.5), c(0.0, 0.5), c(0.0, 0.5)]);
    compressions.extend([c(-1.0, 1.0), c(0.0, 0.0), c(0.0, 0.0)]);
    let defaults: Vec<u32> = [1.0f32, 1.0, 1.0, 0.0, 0.0, 0.0, 1.0, -1.0, 0.0, 0.0].iter().map(|x| x.to_bits()).chain([1]).collect();
    let flags = CompressionFlags::new()
        .with_scale_type(ssbh_data::anim_data::compression::ScaleType::ScaleNoInheritance)
        .with_has_rotation(true)
        .with_has_translation(true);
    let frames = vec![
        (vec![0, 0, 0, 1, 2, 3, 15, 0, 0], true),
        (vec![0, 0, 0, 4, 5, 6, 0, 0, 0], false),
    ];
    let header = create_compressed_float_track(FloatTrackKind::Transform, flags, &defaults, &compressions, &frames);
    // Rotation and translation x take 4 bits each, and each frame ends with a sign bit.
    assert_eq!(header.bits_per_entry, 17);
    let bytes = compressed_float_track_to_bytes(&header, &compressions, 11);
    let values = decode(&bytes, FloatTrackKind::Transform, 2).unwrap();
    assert_eq!(values[0][3], FloatValue::Stored { code: 1, compression: compressions[3] });
    assert_eq!(values[0][6], FloatValue::RotationW { negative: true });
    assert_eq!(values[0][7], FloatValue::Stored { code: 15, compression: compressions[6] });
    assert_eq!(values[1][5], FloatValue::Stored { code: 6, compression: compressions[5] });
    assert_eq!(values[1][6], FloatValue::RotationW { negative: false });
    assert_eq!(values[1][10], FloatValue::Default(1));
    let (_, compensate_scale) = read_compressed_track(&bytes, FloatTrackKind::Transform, 2).unwrap();
    assert!(compensate_scale);
}
