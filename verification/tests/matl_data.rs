use ssbh_data::matl_data::{
    entry_data, entry_v16, AttributeV16, BlendStateData, BlendStateV16, Error, FilteringType,
    Matl, MatlData, MatlEntryData, MatlEntryV16, ParamData, ParamV16, RasterizerStateData,
    RasterizerStateV16, Sampler, SamplerData,
};
use ssbh_lib::formats::matl::{
    BlendFactor, CullMode, FillMode, MagFilter, MaxAnisotropy, MinFilter, ParamId, WrapMode,
};

fn bits4(v: [f32; 4]) -> [u32; 4] {
    v.map(f32::to_bits)
}

fn attribute(param_id: ParamId, param: ParamV16) -> AttributeV16 {
    AttributeV16 {
        param_id,
        param: Some(param),
    }
}

fn param<T>(param_id: ParamId, data: T) -> ParamData<T> {
    ParamData { param_id, data }
}

fn same_variant(a: &ParamV16, b: &ParamV16) -> bool {
    std::mem::discriminant(a) == std::mem::discriminant(b)
}

#[test]
fn create_empty_matl_data_1_5() {
    let result = MatlData::from_matl(&Matl::V15);
    assert!(matches!(
        result,
        Err(Error::UnsupportedVersion {
            major_version: 1,
            minor_version: 5
        })
    ));
}

#[test]
fn create_empty_matl_data_1_6() {
    let data = MatlData::from_matl(&Matl::V16 {
        entries: Vec::new(),
    })
    .unwrap();

    assert_eq!(1, data.major_version);
    assert_eq!(6, data.minor_version);
    assert!(data.entries.is_empty());
}

#[test]
fn create_matl_data_single_entry() {
    let data = MatlData::from_matl(&Matl::V16 {
        entries: vec![MatlEntryV16 {
            material_label: "a".into(),
            attributes: vec![
                attribute(
                    ParamId::CustomVector13,
                    ParamV16::Vector4(bits4([1.0, 2.0, 3.0, 4.0])),
                ),
                attribute(ParamId::CustomFloat5, ParamV16::Float(0.5f32.to_bits())),
                attribute(ParamId::CustomBoolean0, ParamV16::Boolean(1)),
                attribute(ParamId::CustomBoolean1, ParamV16::Boolean(0)),
                attribute(ParamId::Texture1, ParamV16::String("abc".into())),
                attribute(
                    ParamId::Sampler0,
                    ParamV16::Sampler(Sampler {
                        wraps: WrapMode::ClampToBorder as u32,
                        wrapt: WrapMode::ClampToEdge as u32,
                        wrapr: WrapMode::MirroredRepeat as u32,
                        min_filter: MinFilter::LinearMipmapLinear as u32,
                        mag_filter: MagFilter::Nearest as u32,
                        texture_filtering_type: FilteringType::AnisotropicFiltering,
                        border_color: bits4([1.0, 1.0, 3.0, 4.0]),
                        unk11: 0,
                        unk12: 0,
                        lod_bias: (-1.0f32).to_bits(),
                        max_anisotropy: MaxAnisotropy::Four as u32,
                    }),
                ),
                attribute(
                    ParamId::BlendState0,
                    ParamV16::BlendState(BlendStateV16 {
                        source_color: BlendFactor::DestinationColor as u32,
                        color_operation: 0,
                        destination_color: BlendFactor::One as u32,
                        source_alpha: 0,
                        alpha_operation: 0,
                        destination_alpha: 0,
                        alpha_sample_to_coverage: 1,
                        unk8: 0,
                        unk9: 0,
                        unk10: 0,
                    }),
                ),
                attribute(
                    ParamId::RasterizerState0,
                    ParamV16::RasterizerState(RasterizerStateV16 {
                        fill_mode: FillMode::Solid as u32,
                        cull_mode: CullMode::Front as u32,
                        depth_bias: (-5.0f32).to_bits(),
                        unk4: 0,
                        unk5: 0,
                        unk6: 0,
                    }),
                ),
            ],
            shader_label: "b".into(),
        }],
    })
    .unwrap();

    assert_eq!(1, data.major_version);
    assert_eq!(6, data.minor_version);
    assert_eq!(
        vec![MatlEntryData {
            material_label: "a".into(),
            shader_label: "b".into(),
            vectors: vec![param(
                ParamId::CustomVector13,
                bits4([1.0, 2.0, 3.0, 4.0])
            )],
            floats: vec![param(ParamId::CustomFloat5, 0.5f32.to_bits())],
            booleans: vec![
                param(ParamId::CustomBoolean0, true),
                param(ParamId::CustomBoolean1, false)
            ],
            textures: vec![param(ParamId::Texture1, "abc".to_string())],
            samplers: vec![param(
                ParamId::Sampler0,
                SamplerData {
                    wraps: WrapMode::ClampToBorder as u32,
                    wrapt: WrapMode::ClampToEdge as u32,
                    wrapr: WrapMode::MirroredRepeat as u32,
                    min_filter: MinFilter::LinearMipmapLinear as u32,
                    mag_filter: MagFilter::Nearest as u32,
                    border_color: bits4([1.0, 1.0, 3.0, 4.0]),
                    lod_bias: (-1.0f32).to_bits(),
                    max_anisotropy: Some(MaxAnisotropy::Four as u32),
                }
            )],
            blend_states: vec![param(
                ParamId::BlendState0,
                BlendStateData {
                    source_color: BlendFactor::DestinationColor as u32,
                    destination_color: BlendFactor::One as u32,
                    alpha_sample_to_coverage: true,
                }
            )],
            rasterizer_states: vec![param(
                ParamId::RasterizerState0,
                RasterizerStateData {
                    fill_mode: FillMode::Solid as u32,
                    cull_mode: CullMode::Front as u32,
                    depth_bias: (-5.0f32).to_bits(),
                }
            )],
        }],
        data.entries
    );
}

fn default_sampler(wrap: WrapMode, filtering: FilteringType) -> Sampler {
    Sampler {
        wraps: wrap as u32,
        wrapt: wrap as u32,
        wrapr: wrap as u32,
        min_filter: MinFilter::LinearMipmapLinear as u32,
        mag_filter: MagFilter::Linear as u32,
        texture_filtering_type: filtering,
        border_color: [0; 4],
        unk11: 0,
        unk12: 2139095022,
        lod_bias: 0,
        max_anisotropy: MaxAnisotropy::Two as u32,
    }
}

fn sampler_data(wrap: WrapMode) -> SamplerData {
    SamplerData {
        wraps: wrap as u32,
        wrapt: wrap as u32,
        wrapr: wrap as u32,
        min_filter: MinFilter::LinearMipmapLinear as u32,
        mag_filter: MagFilter::Linear as u32,
        border_color: [0; 4],
        lod_bias: 0,
        max_anisotropy: None,
    }
}

#[test]
fn ultimate_matl_entry_conversions() {
    // fighter/mario/model/body/c00/model.numatb "alp_mario_002"
    let one = bits4([1.0, 1.0, 1.0, 1.0]);
    let entry = MatlEntryV16 {
        material_label: "alp_mario_002".into(),
        attributes: vec![
            attribute(
                ParamId::BlendState0,
                ParamV16::BlendState(BlendStateV16 {
                    source_color: BlendFactor::One as u32,
                    color_operation: 0,
                    destination_color: BlendFactor::Zero as u32,
                    source_alpha: 1,
                    alpha_operation: 0,
                    destination_alpha: 0,
                    alpha_sample_to_coverage: 0,
                    unk8: 0,
                    unk9: 0,
                    unk10: 5,
                }),
            ),
            attribute(ParamId::CustomBoolean1, ParamV16::Boolean(1)),
            attribute(ParamId::CustomBoolean3, ParamV16::Boolean(1)),
            attribute(ParamId::CustomBoolean4, ParamV16::Boolean(1)),
            attribute(ParamId::CustomFloat8, ParamV16::Float(0.7f32.to_bits())),
            attribute(
                ParamId::CustomVector0,
                ParamV16::Vector4(bits4([1.0, 0.0, 0.0, 0.0])),
            ),
            attribute(ParamId::CustomVector13, ParamV16::Vector4(one)),
            attribute(ParamId::CustomVector14, ParamV16::Vector4(one)),
            attribute(ParamId::CustomVector8, ParamV16::Vector4(one)),
            attribute(
                ParamId::RasterizerState0,
                ParamV16::RasterizerState(RasterizerStateV16 {
                    fill_mode: FillMode::Solid as u32,
                    cull_mode: CullMode::Back as u32,
                    depth_bias: 0,
                    unk4: 0,
                    unk5: 0,
                    unk6: 16777217,
                }),
            ),
            attribute(
                ParamId::Sampler0,
                ParamV16::Sampler(default_sampler(WrapMode::Repeat, FilteringType::Default2)),
            ),
            attribute(
                ParamId::Sampler4,
                ParamV16::Sampler(default_sampler(WrapMode::Repeat, FilteringType::Default2)),
            ),
            attribute(
                ParamId::Sampler6,
                ParamV16::Sampler(default_sampler(WrapMode::Repeat, FilteringType::Default2)),
            ),
            attribute(
                ParamId::Sampler7,
                ParamV16::Sampler(default_sampler(
                    WrapMode::ClampToEdge,
                    FilteringType::Default2,
                )),
            ),
            attribute(ParamId::Texture0, ParamV16::String("alp_mario_002_col".into())),
            attribute(ParamId::Texture4, ParamV16::String("alp_mario_002_nor".into())),
            attribute(ParamId::Texture6, ParamV16::String("alp_mario_002_prm".into())),
            attribute(ParamId::Texture7, ParamV16::String("#replace_cubemap".into())),
        ],
        shader_label: "SFX_PBS_0100000008008269_opaque".into(),
    };

    let data = MatlEntryData {
        material_label: "alp_mario_002".into(),
        shader_label: "SFX_PBS_0100000008008269_opaque".into(),
        blend_states: vec![param(
            ParamId::BlendState0,
            BlendStateData {
                source_color: BlendFactor::One as u32,
                destination_color: BlendFactor::Zero as u32,
                alpha_sample_to_coverage: false,
            },
        )],
        floats: vec![param(ParamId::CustomFloat8, 0.7f32.to_bits())],
        booleans: vec![
            param(ParamId::CustomBoolean1, true),
            param(ParamId::CustomBoolean3, true),
            param(ParamId::CustomBoolean4, true),
        ],
        vectors: vec![
            param(ParamId::CustomVector0, bits4([1.0, 0.0, 0.0, 0.0])),
            param(ParamId::CustomVector13, one),
            param(ParamId::CustomVector14, one),
            param(ParamId::CustomVector8, one),
        ],
        rasterizer_states: vec![param(
            ParamId::RasterizerState0,
            RasterizerStateData {
                fill_mode: FillMode::Solid as u32,
                cull_mode: CullMode::Back as u32,
                depth_bias: 0,
            },
        )],
        samplers: vec![
            param(ParamId::Sampler0, sampler_data(WrapMode::Repeat)),
            param(ParamId::Sampler4, sampler_data(WrapMode::Repeat)),
            param(ParamId::Sampler6, sampler_data(WrapMode::Repeat)),
            param(ParamId::Sampler7, sampler_data(WrapMode::ClampToEdge)),
        ],
        textures: vec![
            param(ParamId::Texture0, "alp_mario_002_col".to_string()),
            param(ParamId::Texture4, "alp_mario_002_nor".to_string()),
            param(ParamId::Texture6, "alp_mario_002_prm".to_string()),
            param(ParamId::Texture7, "#replace_cubemap".to_string()),
        ],
    };

    // Test both conversion directions.
    assert_eq!(data, entry_data(&entry));

    let new_entry = entry_v16(&data);
    assert_eq!("alp_mario_002", new_entry.material_label);
    assert_eq!("SFX_PBS_0100000008008269_opaque", new_entry.shader_label);

    // The order and types of the parameters are preserved.
    assert_eq!(entry.attributes.len(), new_entry.attributes.len());
    for (expected, actual) in entry.attributes.iter().zip(new_entry.attributes.iter()) {
        assert_eq!(expected.param_id, actual.param_id);
        assert!(same_variant(
            expected.param.as_ref().unwrap(),
            actual.param.as_ref().unwrap()
        ));
    }
}

#[test]
fn matl_entry_roundtrip_keeps_parameters() {
    let data = MatlEntryData {
        material_label: "m".into(),
        shader_label: "s".into(),
        blend_states: vec![param(ParamId::BlendState0, BlendStateData::default())],
        floats: vec![param(ParamId::CustomFloat0, 2.5f32.to_bits())],
        booleans: vec![param(ParamId::CustomBoolean1, false)],
        vectors: Vec::new(),
        rasterizer_states: vec![param(
            ParamId::RasterizerState0,
            RasterizerStateData::default(),
        )],
        samplers: vec![
            param(ParamId::Sampler0, SamplerData::default()),
            param(
                ParamId::Sampler4,
                SamplerData {
                    max_anisotropy: Some(MaxAnisotropy::Sixteen as u32),
                    ..SamplerData::default()
                },
            ),
        ],
        textures: vec![param(ParamId::Texture0, "t".to_string())],
    };
    assert_eq!(data, entry_data(&entry_v16(&data)));
}

#[test]
fn matl_sampler_filtering() {
    let data = SamplerData {
        max_anisotropy: Some(MaxAnisotropy::Four as u32),
        ..SamplerData::default()
    };
    let sampler = entry_v16(&MatlEntryData {
        material_label: String::new(),
        shader_label: String::new(),
        blend_states: Vec::new(),
        floats: Vec::new(),
        booleans: vec![param(ParamId::CustomBoolean0, true)],
        vectors: Vec::new(),
        rasterizer_states: Vec::new(),
        samplers: vec![param(ParamId::Sampler0, data), param(ParamId::Sampler1, SamplerData::default())],
        textures: Vec::new(),
    });
    assert_eq!(Some(ParamV16::Boolean(1)), sampler.attributes[0].param);
    match &sampler.attributes[1].param {
        Some(ParamV16::Sampler(s)) => {
            assert_eq!(FilteringType::AnisotropicFiltering, s.texture_filtering_type);
            assert_eq!(4, s.max_anisotropy);
            assert_eq!(2139095022, s.unk12);
        }
        _ => panic!("expected a sampler"),
    }
    match &sampler.attributes[2].param {
        Some(ParamV16::Sampler(s)) => {
            assert_eq!(FilteringType::Default, s.texture_filtering_type);
            assert_eq!(1, s.max_anisotropy);
        }
        _ => panic!("expected a sampler"),
    }
}

#[test]
fn matl_write_unsupported_version() {
    let data = MatlData {
        major_version: 1,
        minor_version: 5,
        entries: Vec::new(),
    };
    assert!(matches!(
        data.to_matl(),
        Err(Error::UnsupportedVersion {
            major_version: 1,
            minor_version: 5
        })
    ));
    let data = MatlData {
        major_version: 1,
        minor_version: 6,
        entries: Vec::new(),
    };
    assert!(matches!(data.to_matl(), Ok(Matl::V16 { entries }) if entries.is_empty()));
}
