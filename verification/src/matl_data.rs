//! Material parameters of .numatb files.
//!
//! A material file entry stores its parameters as one list of attributes, each tagged with
//! its type. [MatlEntryData] groups the parameters by type, keeping their order.
//! Parameter ids are those of `ssbh_lib`, carried through unchanged. The file's other
//! enumerations are carried as their numeric values, and `f32` values as their bit patterns.
use vstd::prelude::*;
use ssbh_lib::formats::matl::ParamId;

verus! {

/// Errors while converting material data.
#[derive(Debug)]
pub enum Error {
    /// Creating or reading a material file of the given version is not supported.
    UnsupportedVersion { major_version: u16, minor_version: u16 },
}

/// Declares `ssbh_lib::formats::matl::ParamId`, the id of a material parameter. Ids are
/// copied from attribute to parameter and back; nothing is claimed of their values.
#[verifier::external_type_specification]
#[verifier::external_body]
pub struct ExParamId(ParamId);

/// A parameter value with the id of the parameter it sets.
#[derive(Debug, PartialEq)]
pub struct ParamData<T> {
    pub param_id: ParamId,
    pub data: T,
}

/// Texture sampling settings.
#[derive(Debug, PartialEq, Eq, Clone, Copy)]
pub struct SamplerData {
    pub wraps: u32,
    pub wrapt: u32,
    pub wrapr: u32,
    pub min_filter: u32,
    pub mag_filter: u32,
    pub border_color: [u32; 4],
    pub lod_bias: u32,
    /// The anisotropy level when anisotropic filtering is used.
    pub max_anisotropy: Option<u32>,
}

/// Alpha blending settings.
#[derive(Debug, PartialEq, Eq, Clone, Copy)]
pub struct BlendStateData {
    pub source_color: u32,
    pub destination_color: u32,
    pub alpha_sample_to_coverage: bool,
}

/// Rasterizer settings.
#[derive(Debug, PartialEq, Eq, Clone, Copy)]
pub struct RasterizerStateData {
    pub fill_mode: u32,
    pub cull_mode: u32,
    pub depth_bias: u32,
}

/// The parameters of one material, grouped by type.
#[derive(Debug, PartialEq)]
pub struct MatlEntryData {
    pub material_label: String,
    pub shader_label: String,
    pub blend_states: Vec<ParamData<BlendStateData>>,
    pub floats: Vec<ParamData<u32>>,
    pub booleans: Vec<ParamData<bool>>,
    pub vectors: Vec<ParamData<[u32; 4]>>,
    pub rasterizer_states: Vec<ParamData<RasterizerStateData>>,
    pub samplers: Vec<ParamData<SamplerData>>,
    pub textures: Vec<ParamData<String>>,
}

/// The data associated with a material file. The supported version is 1.6.
#[derive(Debug, PartialEq)]
pub struct MatlData {
    pub major_version: u16,
    pub minor_version: u16,
    pub entries: Vec<MatlEntryData>,
}

impl Default for SamplerData {
    /// Standard texture filtering and wrapping: clamp to edge, linear mipmap filtering,
    /// a transparent black border and no anisotropic filtering.
    fn default() -> (r: Self)
        ensures
            r.wraps == 1 && r.wrapt == 1 && r.wrapr == 1,
            r.min_filter == 1,
            r.mag_filter == 1,
            r.border_color@ == seq![0u32, 0u32, 0u32, 0u32],
            r.lod_bias == 0,
            r.max_anisotropy is None,
    {
        SamplerData {
            wraps: 1,
            wrapt: 1,
            wrapr: 1,
            min_filter: 1,
            mag_filter: 1,
            border_color: [0, 0, 0, 0],
            lod_bias: 0,
            max_anisotropy: None,
        }
    }
}

impl Default for BlendStateData {
    /// No alpha blending: source factor one, destination factor zero.
    fn default() -> (r: Self)
        ensures
            r.source_color == 1,
            r.destination_color == 0,
            !r.alpha_sample_to_coverage,
    {
        BlendStateData { source_color: 1, destination_color: 0, alpha_sample_to_coverage: false }
    }
}

impl Default for RasterizerStateData {
    /// Solid shading with back faces culled and no depth bias.
    fn default() -> (r: Self)
        ensures
            r.fill_mode == 1,
            r.cull_mode == 0,
            r.depth_bias == 0,
    {
        RasterizerStateData { fill_mode: 1, cull_mode: 0, depth_bias: 0 }
    }
}

/// How a file sampler filters textures.
#[derive(Debug, PartialEq, Eq, Structural, Clone, Copy)]
pub enum FilteringType {
    Default,
    Default2,
    AnisotropicFiltering,
}

/// A sampler as the file stores it.
#[derive(Debug, PartialEq, Eq, Clone, Copy)]
pub struct Sampler {
    pub wraps: u32,
    pub wrapt: u32,
    pub wrapr: u32,
    pub min_filter: u32,
    pub mag_filter: u32,
    pub texture_filtering_type: FilteringType,
    pub border_color: [u32; 4],
    pub unk11: u32,
    pub unk12: u32,
    pub lod_bias: u32,
    pub max_anisotropy: u32,
}

/// A blend state as version 1.6 files store it.
#[derive(Debug, PartialEq, Eq, Clone, Copy)]
pub struct BlendStateV16 {
    pub source_color: u32,
    pub color_operation: u32,
    pub destination_color: u32,
    pub source_alpha: u32,
    pub alpha_operation: u32,
    pub destination_alpha: u32,
    pub alpha_sample_to_coverage: u32,
    pub unk8: u32,
    pub unk9: u32,
    pub unk10: u32,
}

/// A rasterizer state as version 1.6 files store it.
#[derive(Debug, PartialEq, Eq, Clone, Copy)]
pub struct RasterizerStateV16 {
    pub fill_mode: u32,
    pub cull_mode: u32,
    pub depth_bias: u32,
    pub unk4: u32,
    pub unk5: u32,
    pub unk6: u32,
}

/// The value of an attribute of a version 1.6 file, by type.
#[derive(Debug, PartialEq, Clone)]
pub enum ParamV16 {
    Float(u32),
    Boolean(u32),
    Vector4([u32; 4]),
    Unk7([u32; 4]),
    String(String),
    Sampler(Sampler),
    UvTransform([u32; 5]),
    BlendState(BlendStateV16),
    RasterizerState(RasterizerStateV16),
}

/// An attribute of a version 1.6 file. `param` is `None` where the file holds no value.
#[derive(Debug, PartialEq)]
pub struct AttributeV16 {
    pub param_id: ParamId,
    pub param: Option<ParamV16>,
}

/// A material of a version 1.6 file.
#[derive(Debug, PartialEq)]
pub struct MatlEntryV16 {
    pub material_label: String,
    pub attributes: Vec<AttributeV16>,
    pub shader_label: String,
}

/// A material file. Version 1.5 files are recognized but not read.
#[derive(Debug, PartialEq)]
pub enum Matl {
    V15,
    V16 { entries: Vec<MatlEntryV16> },
}

/// The sampler data of a file sampler. Only anisotropic filtering keeps the anisotropy.
pub open spec fn spec_sampler_data(v: Sampler) -> SamplerData {
    SamplerData {
        wraps: v.wraps,
        wrapt: v.wrapt,
        wrapr: v.wrapr,
        min_filter: v.min_filter,
        mag_filter: v.mag_filter,
        border_color: v.border_color,
        lod_bias: v.lod_bias,
        max_anisotropy: if v.texture_filtering_type == FilteringType::AnisotropicFiltering {
            Some(v.max_anisotropy)
        } else {
            None
        },
    }
}

/// The file sampler of sampler data: anisotropic filtering when an anisotropy is given, else
/// default filtering with anisotropy 1.
pub open spec fn spec_sampler(v: SamplerData) -> Sampler {
    Sampler {
        wraps: v.wraps,
        wrapt: v.wrapt,
        wrapr: v.wrapr,
        min_filter: v.min_filter,
        mag_filter: v.mag_filter,
        texture_filtering_type: if v.max_anisotropy is Some {
            FilteringType::AnisotropicFiltering
        } else {
            FilteringType::Default
        },
        border_color: v.border_color,
        unk11: 0,
        unk12: 2139095022,
        lod_bias: v.lod_bias,
        max_anisotropy: match v.max_anisotropy {
            Some(m) => m,
            None => 1,
        },
    }
}

/// The blend state data of a file blend state.
pub open spec fn spec_blend_state_data(v: BlendStateV16) -> BlendStateData {
    BlendStateData {
        source_color: v.source_color,
        destination_color: v.destination_color,
        alpha_sample_to_coverage: v.alpha_sample_to_coverage != 0,
    }
}

/// The file blend state of blend state data: additive blending, alpha factors one and zero.
pub open spec fn spec_blend_state(v: BlendStateData) -> BlendStateV16 {
    BlendStateV16 {
        source_color: v.source_color,
        color_operation: 0,
        destination_color: v.destination_color,
        source_alpha: 1,
        alpha_operation: 0,
        destination_alpha: 0,
        alpha_sample_to_coverage: if v.alpha_sample_to_coverage { 1 } else { 0 },
        unk8: 0,
        unk9: 0,
        unk10: 5,
    }
}

/// The rasterizer state data of a file rasterizer state.
pub open spec fn spec_rasterizer_state_data(v: RasterizerStateV16) -> RasterizerStateData {
    RasterizerStateData { fill_mode: v.fill_mode, cull_mode: v.cull_mode, depth_bias: v.depth_bias }
}

/// The file rasterizer state of rasterizer state data.
pub open spec fn spec_rasterizer_state(v: RasterizerStateData) -> RasterizerStateV16 {
    RasterizerStateV16 {
        fill_mode: v.fill_mode,
        cull_mode: v.cull_mode,
        depth_bias: v.depth_bias,
        unk4: 0,
        unk5: 0,
        unk6: 16777217,
    }
}

/// Converts a file sampler to sampler data.
pub fn sampler_data(v: &Sampler) -> (r: SamplerData)
    ensures
        r == spec_sampler_data(*v),
{
    SamplerData {
        wraps: v.wraps,
        wrapt: v.wrapt,
        wrapr: v.wrapr,
        min_filter: v.min_filter,
        mag_filter: v.mag_filter,
        border_color: v.border_color,
        lod_bias: v.lod_bias,
        max_anisotropy: match v.texture_filtering_type {
            FilteringType::AnisotropicFiltering => Some(v.max_anisotropy),
            _ => None,
        },
    }
}

/// Converts sampler data to a file sampler.
pub fn sampler(v: &SamplerData) -> (r: Sampler)
    ensures
        r == spec_sampler(*v),
{
    Sampler {
        wraps: v.wraps,
        wrapt: v.wrapt,
        wrapr: v.wrapr,
        min_filter: v.min_filter,
        mag_filter: v.mag_filter,
        texture_filtering_type: match v.max_anisotropy {
            Some(_) => FilteringType::AnisotropicFiltering,
            None => FilteringType::Default,
        },
        border_color: v.border_color,
        unk11: 0,
        unk12: 2139095022,
        lod_bias: v.lod_bias,
        max_anisotropy: match v.max_anisotropy {
            Some(m) => m,
            None => 1,
        },
    }
}

/// Converts a file blend state to blend state data.
pub fn blend_state_data(v: &BlendStateV16) -> (r: BlendStateData)
    ensures
        r == spec_blend_state_data(*v),
{
    BlendStateData {
        source_color: v.source_color,
        destination_color: v.destination_color,
        alpha_sample_to_coverage: v.alpha_sample_to_coverage != 0,
    }
}

/// Converts blend state data to a file blend state.
pub fn blend_state(v: &BlendStateData) -> (r: BlendStateV16)
    ensures
        r == spec_blend_state(*v),
{
    BlendStateV16 {
        source_color: v.source_color,
        color_operation: 0,
        destination_color: v.destination_color,
        source_alpha: 1,
        alpha_operation: 0,
        destination_alpha: 0,
        alpha_sample_to_coverage: if v.alpha_sample_to_coverage { 1 } else { 0 },
        unk8: 0,
        unk9: 0,
        unk10: 5,
    }
}

/// Converts a file rasterizer state to rasterizer state data.
pub fn rasterizer_state_data(v: &RasterizerStateV16) -> (r: RasterizerStateData)
    ensures
        r == spec_rasterizer_state_data(*v),
{
    RasterizerStateData { fill_mode: v.fill_mode, cull_mode: v.cull_mode, depth_bias: v.depth_bias }
}

/// Converts rasterizer state data to a file rasterizer state.
pub fn rasterizer_state(v: &RasterizerStateData) -> (r: RasterizerStateV16)
    ensures
        r == spec_rasterizer_state(*v),
{
    RasterizerStateV16 {
        fill_mode: v.fill_mode,
        cull_mode: v.cull_mode,
        depth_bias: v.depth_bias,
        unk4: 0,
        unk5: 0,
        unk6: 16777217,
    }
}

/// The blend state of an attribute that holds one.
pub open spec fn blend_state_param(a: AttributeV16) -> Option<ParamData<BlendStateData>> {
    match a.param {
        Some(ParamV16::BlendState(v)) => Some(ParamData { param_id: a.param_id, data: spec_blend_state_data(v) }),
        _ => None,
    }
}

/// The float of an attribute that holds one.
pub open spec fn float_param(a: AttributeV16) -> Option<ParamData<u32>> {
    match a.param {
        Some(ParamV16::Float(v)) => Some(ParamData { param_id: a.param_id, data: v }),
        _ => None,
    }
}

/// The boolean of an attribute that holds one: any nonzero value is `true`.
pub open spec fn boolean_param(a: AttributeV16) -> Option<ParamData<bool>> {
    match a.param {
        Some(ParamV16::Boolean(v)) => Some(ParamData { param_id: a.param_id, data: v != 0 }),
        _ => None,
    }
}

/// The vector of an attribute that holds one.
pub open spec fn vector_param(a: AttributeV16) -> Option<ParamData<[u32; 4]>> {
    match a.param {
        Some(ParamV16::Vector4(v)) => Some(ParamData { param_id: a.param_id, data: v }),
        _ => None,
    }
}

/// The rasterizer state of an attribute that holds one.
pub open spec fn rasterizer_state_param(a: AttributeV16) -> Option<ParamData<RasterizerStateData>> {
    match a.param {
        Some(ParamV16::RasterizerState(v)) => Some(
            ParamData { param_id: a.param_id, data: spec_rasterizer_state_data(v) },
        ),
        _ => None,
    }
}

/// The sampler of an attribute that holds one.
pub open spec fn sampler_param(a: AttributeV16) -> Option<ParamData<SamplerData>> {
    match a.param {
        Some(ParamV16::Sampler(v)) => Some(ParamData { param_id: a.param_id, data: spec_sampler_data(v) }),
        _ => None,
    }
}

/// The texture name of an attribute that holds one.
pub open spec fn texture_param(a: AttributeV16) -> Option<ParamData<String>> {
    match a.param {
        Some(ParamV16::String(v)) => Some(ParamData { param_id: a.param_id, data: v }),
        _ => None,
    }
}

/// The material's parameters of each type, in the order of the file's attributes.
/// Attributes of other types, or without a value, are left out.
pub open spec fn entry_params_match(r: MatlEntryData, attributes: Seq<AttributeV16>) -> bool {
    &&& r.blend_states@ == attributes.filter_map(|a: AttributeV16| blend_state_param(a))
    &&& r.floats@ == attributes.filter_map(|a: AttributeV16| float_param(a))
    &&& r.booleans@ == attributes.filter_map(|a: AttributeV16| boolean_param(a))
    &&& r.vectors@ == attributes.filter_map(|a: AttributeV16| vector_param(a))
    &&& r.rasterizer_states@ == attributes.filter_map(|a: AttributeV16| rasterizer_state_param(a))
    &&& r.samplers@ == attributes.filter_map(|a: AttributeV16| sampler_param(a))
    &&& r.textures@ == attributes.filter_map(|a: AttributeV16| texture_param(a))
}

/// Groups the attributes of a version 1.6 material by type.
pub fn entry_data(e: &MatlEntryV16) -> (r: MatlEntryData)
    ensures
        r.material_label == e.material_label,
        r.shader_label == e.shader_label,
        entry_params_match(r, e.attributes@),
{
    let mut blend_states: Vec<ParamData<BlendStateData>> = Vec::new();
    let mut floats: Vec<ParamData<u32>> = Vec::new();
    let mut booleans: Vec<ParamData<bool>> = Vec::new();
    let mut vectors: Vec<ParamData<[u32; 4]>> = Vec::new();
    let mut rasterizer_states: Vec<ParamData<RasterizerStateData>> = Vec::new();
    let mut samplers: Vec<ParamData<SamplerData>> = Vec::new();
    let mut textures: Vec<ParamData<String>> = Vec::new();
    let ghost attrs = e.attributes@;
    let mut i: usize = 0;
    while i < e.attributes.len()
        invariant
            attrs == e.attributes@,
            i <= attrs.len(),
            blend_states@ == attrs.take(i as int).filter_map(|a: AttributeV16| blend_state_param(a)),
            floats@ == attrs.take(i as int).filter_map(|a: AttributeV16| float_param(a)),
            booleans@ == attrs.take(i as int).filter_map(|a: AttributeV16| boolean_param(a)),
            vectors@ == attrs.take(i as int).filter_map(|a: AttributeV16| vector_param(a)),
            rasterizer_states@ == attrs.take(i as int).filter_map(|a: AttributeV16| rasterizer_state_param(a)),
            samplers@ == attrs.take(i as int).filter_map(|a: AttributeV16| sampler_param(a)),
            textures@ == attrs.take(i as int).filter_map(|a: AttributeV16| texture_param(a)),
        decreases attrs.len() - i,
    {
        let a = &e.attributes[i];
        proof {
            attrs.lemma_filter_map_take_succ(|a: AttributeV16| blend_state_param(a), i as int);
            attrs.lemma_filter_map_take_succ(|a: AttributeV16| float_param(a), i as int);
            attrs.lemma_filter_map_take_succ(|a: AttributeV16| boolean_param(a), i as int);
            attrs.lemma_filter_map_take_succ(|a: AttributeV16| vector_param(a), i as int);
            attrs.lemma_filter_map_take_succ(|a: AttributeV16| rasterizer_state_param(a), i as int);
            attrs.lemma_filter_map_take_succ(|a: AttributeV16| sampler_param(a), i as int);
            attrs.lemma_filter_map_take_succ(|a: AttributeV16| texture_param(a), i as int);
        }
        match &a.param {
            Some(ParamV16::BlendState(v)) => {
                blend_states.push(ParamData { param_id: a.param_id, data: blend_state_data(v) });
            },
            Some(ParamV16::Float(v)) => {
                floats.push(ParamData { param_id: a.param_id, data: *v });
            },
            Some(ParamV16::Boolean(v)) => {
                booleans.push(ParamData { param_id: a.param_id, data: *v != 0 });
            },
            Some(ParamV16::Vector4(v)) => {
                vectors.push(ParamData { param_id: a.param_id, data: *v });
            },
            Some(ParamV16::RasterizerState(v)) => {
                rasterizer_states.push(ParamData { param_id: a.param_id, data: rasterizer_state_data(v) });
            },
            Some(ParamV16::Sampler(v)) => {
                samplers.push(ParamData { param_id: a.param_id, data: sampler_data(v) });
            },
            Some(ParamV16::String(v)) => {
                textures.push(ParamData { param_id: a.param_id, data: v.clone() });
            },
            _ => {},
        }
        i = i + 1;
    }
    proof {
        assert(attrs.take(i as int) =~= attrs);
    }
    MatlEntryData {
        material_label: e.material_label.clone(),
        shader_label: e.shader_label.clone(),
        blend_states,
        floats,
        booleans,
        vectors,
        rasterizer_states,
        samplers,
        textures,
    }
}

/// The file attribute of a blend state parameter.
pub open spec fn blend_state_attribute(p: ParamData<BlendStateData>) -> AttributeV16 {
    AttributeV16 { param_id: p.param_id, param: Some(ParamV16::BlendState(spec_blend_state(p.data))) }
}

/// The file attribute of a boolean parameter.
pub open spec fn boolean_attribute(p: ParamData<bool>) -> AttributeV16 {
    AttributeV16 { param_id: p.param_id, param: Some(ParamV16::Boolean(if p.data { 1 } else { 0 })) }
}

/// The file attribute of a float parameter.
pub open spec fn float_attribute(p: ParamData<u32>) -> AttributeV16 {
    AttributeV16 { param_id: p.param_id, param: Some(ParamV16::Float(p.data)) }
}

/// The file attribute of a vector parameter.
pub open spec fn vector_attribute(p: ParamData<[u32; 4]>) -> AttributeV16 {
    AttributeV16 { param_id: p.param_id, param: Some(ParamV16::Vector4(p.data)) }
}

/// The file attribute of a rasterizer state parameter.
pub open spec fn rasterizer_state_attribute(p: ParamData<RasterizerStateData>) -> AttributeV16 {
    AttributeV16 { param_id: p.param_id, param: Some(ParamV16::RasterizerState(spec_rasterizer_state(p.data))) }
}

/// The file attribute of a sampler parameter.
pub open spec fn sampler_attribute(p: ParamData<SamplerData>) -> AttributeV16 {
    AttributeV16 { param_id: p.param_id, param: Some(ParamV16::Sampler(spec_sampler(p.data))) }
}

/// The file attribute of a texture parameter.
pub open spec fn texture_attribute(p: ParamData<String>) -> AttributeV16 {
    AttributeV16 { param_id: p.param_id, param: Some(ParamV16::String(p.data)) }
}

/// The file attributes of a material: its blend states, booleans, floats, vectors,
/// rasterizer states, samplers and textures, in that order.
pub open spec fn entry_attributes(e: MatlEntryData) -> Seq<AttributeV16> {
    e.blend_states@.map_values(|p: ParamData<BlendStateData>| blend_state_attribute(p))
        + e.booleans@.map_values(|p: ParamData<bool>| boolean_attribute(p))
        + e.floats@.map_values(|p: ParamData<u32>| float_attribute(p))
        + e.vectors@.map_values(|p: ParamData<[u32; 4]>| vector_attribute(p))
        + e.rasterizer_states@.map_values(|p: ParamData<RasterizerStateData>| rasterizer_state_attribute(p))
        + e.samplers@.map_values(|p: ParamData<SamplerData>| sampler_attribute(p))
        + e.textures@.map_values(|p: ParamData<String>| texture_attribute(p))
}

/// Appends the file attributes of blend state parameters.
fn push_blend_state_attributes(attributes: &mut Vec<AttributeV16>, params: &Vec<ParamData<BlendStateData>>)
    ensures
        final(attributes)@ == old(attributes)@ + params@.map_values(|p: ParamData<BlendStateData>| blend_state_attribute(p)),
{
    let mut k: usize = 0;
    while k < params.len()
        invariant
            k <= params@.len(),
            attributes@ == old(attributes)@ + params@.take(k as int).map_values(|p: ParamData<BlendStateData>| blend_state_attribute(p)),
        decreases params@.len() - k,
    {
        let p = &params[k];
        attributes.push(AttributeV16 { param_id: p.param_id, param: Some(ParamV16::BlendState(blend_state(&p.data))) });
        k = k + 1;
        assert(params@.take(k as int).map_values(|p: ParamData<BlendStateData>| blend_state_attribute(p))
            =~= params@.take(k - 1).map_values(|p: ParamData<BlendStateData>| blend_state_attribute(p)).push(blend_state_attribute(params@[k - 1])));
    }
    assert(params@.take(k as int) =~= params@);
}

/// Appends the file attributes of boolean parameters.
fn push_boolean_attributes(attributes: &mut Vec<AttributeV16>, params: &Vec<ParamData<bool>>)
    ensures
        final(attributes)@ == old(attributes)@ + params@.map_values(|p: ParamData<bool>| boolean_attribute(p)),
{
    let mut k: usize = 0;
    while k < params.len()
        invariant
            k <= params@.len(),
            attributes@ == old(attributes)@ + params@.take(k as int).map_values(|p: ParamData<bool>| boolean_attribute(p)),
        decreases params@.len() - k,
    {
        let p = &params[k];
        attributes.push(AttributeV16 { param_id: p.param_id, param: Some(ParamV16::Boolean(if p.data { 1 } else { 0 })) });
        k = k + 1;
        assert(params@.take(k as int).map_values(|p: ParamData<bool>| boolean_attribute(p))
            =~= params@.take(k - 1).map_values(|p: ParamData<bool>| boolean_attribute(p)).push(boolean_attribute(params@[k - 1])));
    }
    assert(params@.take(k as int) =~= params@);
}

/// Appends the file attributes of float parameters.
fn push_float_attributes(attributes: &mut Vec<AttributeV16>, params: &Vec<ParamData<u32>>)
    ensures
        final(attributes)@ == old(attributes)@ + params@.map_values(|p: ParamData<u32>| float_attribute(p)),
{
    let mut k: usize = 0;
    while k < params.len()
        invariant
            k <= params@.len(),
            attributes@ == old(attributes)@ + params@.take(k as int).map_values(|p: ParamData<u32>| float_attribute(p)),
        decreases params@.len() - k,
    {
        let p = &params[k];
        attributes.push(AttributeV16 { param_id: p.param_id, param: Some(ParamV16::Float(p.data)) });
        k = k + 1;
        assert(params@.take(k as int).map_values(|p: ParamData<u32>| float_attribute(p))
            =~= params@.take(k - 1).map_values(|p: ParamData<u32>| float_attribute(p)).push(float_attribute(params@[k - 1])));
    }
    assert(params@.take(k as int) =~= params@);
}

/// Appends the file attributes of vector parameters.
fn push_vector_attributes(attributes: &mut Vec<AttributeV16>, params: &Vec<ParamData<[u32; 4]>>)
    ensures
        final(attributes)@ == old(attributes)@ + params@.map_values(|p: ParamData<[u32; 4]>| vector_attribute(p)),
{
    let mut k: usize = 0;
    while k < params.len()
        invariant
            k <= params@.len(),
            attributes@ == old(attributes)@ + params@.take(k as int).map_values(|p: ParamData<[u32; 4]>| vector_attribute(p)),
        decreases params@.len() - k,
    {
        let p = &params[k];
        attributes.push(AttributeV16 { param_id: p.param_id, param: Some(ParamV16::Vector4(p.data)) });
        k = k + 1;
        assert(params@.take(k as int).map_values(|p: ParamData<[u32; 4]>| vector_attribute(p))
            =~= params@.take(k - 1).map_values(|p: ParamData<[u32; 4]>| vector_attribute(p)).push(vector_attribute(params@[k - 1])));
    }
    assert(params@.take(k as int) =~= params@);
}

/// Appends the file attributes of rasterizer state parameters.
fn push_rasterizer_state_attributes(attributes: &mut Vec<AttributeV16>, params: &Vec<ParamData<RasterizerStateData>>)
    ensures
        final(attributes)@ == old(attributes)@ + params@.map_values(|p: ParamData<RasterizerStateData>| rasterizer_state_attribute(p)),
{
    let mut k: usize = 0;
    while k < params.len()
        invariant
            k <= params@.len(),
            attributes@ == old(attributes)@ + params@.take(k as int).map_values(|p: ParamData<RasterizerStateData>| rasterizer_state_attribute(p)),
        decreases params@.len() - k,
    {
        let p = &params[k];
        attributes.push(AttributeV16 { param_id: p.param_id, param: Some(ParamV16::RasterizerState(rasterizer_state(&p.data))) });
        k = k + 1;
        assert(params@.take(k as int).map_values(|p: ParamData<RasterizerStateData>| rasterizer_state_attribute(p))
            =~= params@.take(k - 1).map_values(|p: ParamData<RasterizerStateData>| rasterizer_state_attribute(p)).push(rasterizer_state_attribute(params@[k - 1])));
    }
    assert(params@.take(k as int) =~= params@);
}

/// Appends the file attributes of sampler parameters.
fn push_sampler_attributes(attributes: &mut Vec<AttributeV16>, params: &Vec<ParamData<SamplerData>>)
    ensures
        final(attributes)@ == old(attributes)@ + params@.map_values(|p: ParamData<SamplerData>| sampler_attribute(p)),
{
    let mut k: usize = 0;
    while k < params.len()
        invariant
            k <= params@.len(),
            attributes@ == old(attributes)@ + params@.take(k as int).map_values(|p: ParamData<SamplerData>| sampler_attribute(p)),
        decreases params@.len() - k,
    {
        let p = &params[k];
        attributes.push(AttributeV16 { param_id: p.param_id, param: Some(ParamV16::Sampler(sampler(&p.data))) });
        k = k + 1;
        assert(params@.take(k as int).map_values(|p: ParamData<SamplerData>| sampler_attribute(p))
            =~= params@.take(k - 1).map_values(|p: ParamData<SamplerData>| sampler_attribute(p)).push(sampler_attribute(params@[k - 1])));
    }
    assert(params@.take(k as int) =~= params@);
}

/// Appends the file attributes of texture parameters.
fn push_texture_attributes(attributes: &mut Vec<AttributeV16>, params: &Vec<ParamData<String>>)
    ensures
        final(attributes)@ == old(attributes)@ + params@.map_values(|p: ParamData<String>| texture_attribute(p)),
{
    let mut k: usize = 0;
    while k < params.len()
        invariant
            k <= params@.len(),
            attributes@ == old(attributes)@ + params@.take(k as int).map_values(|p: ParamData<String>| texture_attribute(p)),
        decreases params@.len() - k,
    {
        let p = &params[k];
        attributes.push(AttributeV16 { param_id: p.param_id, param: Some(ParamV16::String(p.data.clone())) });
        k = k + 1;
        assert(params@.take(k as int).map_values(|p: ParamData<String>| texture_attribute(p))
            =~= params@.take(k - 1).map_values(|p: ParamData<String>| texture_attribute(p)).push(texture_attribute(params@[k - 1])));
    }
    assert(params@.take(k as int) =~= params@);
}

/// The version 1.6 file material of the grouped parameters.
pub fn entry_v16(e: &MatlEntryData) -> (r: MatlEntryV16)
    ensures
        r.material_label == e.material_label,
        r.shader_label == e.shader_label,
        r.attributes@ == entry_attributes(*e),
{
    let mut attributes: Vec<AttributeV16> = Vec::new();
    push_blend_state_attributes(&mut attributes, &e.blend_states);
    push_boolean_attributes(&mut attributes, &e.booleans);
    push_float_attributes(&mut attributes, &e.floats);
    push_vector_attributes(&mut attributes, &e.vectors);
    push_rasterizer_state_attributes(&mut attributes, &e.rasterizer_states);
    push_sampler_attributes(&mut attributes, &e.samplers);
    push_texture_attributes(&mut attributes, &e.textures);
    MatlEntryV16 {
        material_label: e.material_label.clone(),
        attributes,
        shader_label: e.shader_label.clone(),
    }
}

impl MatlData {
    /// Reads a material file. Only version 1.6 is supported.
    pub fn from_matl(m: &Matl) -> (r: Result<MatlData, Error>)
        ensures
            m is V15 ==> (r matches Err(Error::UnsupportedVersion { major_version, minor_version })
                && major_version == 1 && minor_version == 5),
            m matches Matl::V16 { entries } ==> (r matches Ok(data) && {
                &&& data.major_version == 1
                &&& data.minor_version == 6
                &&& data.entries@.len() == entries@.len()
                &&& forall|i: int| 0 <= i < entries@.len() ==> {
                    &&& (#[trigger] data.entries@[i]).material_label == entries@[i].material_label
                    &&& data.entries@[i].shader_label == entries@[i].shader_label
                    &&& entry_params_match(data.entries@[i], entries@[i].attributes@)
                }
            }),
    {
        match m {
            Matl::V15 => Err(Error::UnsupportedVersion { major_version: 1, minor_version: 5 }),
            Matl::V16 { entries } => {
                let mut data: Vec<MatlEntryData> = Vec::new();
                let mut i: usize = 0;
                while i < entries.len()
                    invariant
                        i <= entries@.len(),
                        data@.len() == i,
                        forall|j: int| 0 <= j < i ==> {
                            &&& (#[trigger] data@[j]).material_label == entries@[j].material_label
                            &&& data@[j].shader_label == entries@[j].shader_label
                            &&& entry_params_match(data@[j], entries@[j].attributes@)
                        },
                    decreases entries@.len() - i,
                {
                    data.push(entry_data(&entries[i]));
                    i = i + 1;
                }
                Ok(MatlData { major_version: 1, minor_version: 6, entries: data })
            },
        }
    }

    /// Writes the data as a material file. Only version 1.6 is supported.
    pub fn to_matl(&self) -> (r: Result<Matl, Error>)
        ensures
            !(self.major_version == 1 && self.minor_version == 6) ==> (r matches Err(
                Error::UnsupportedVersion { major_version, minor_version },
            ) && major_version == self.major_version && minor_version == self.minor_version),
            self.major_version == 1 && self.minor_version == 6 ==> (r matches Ok(Matl::V16 { entries }) && {
                &&& entries@.len() == self.entries@.len()
                &&& forall|i: int| 0 <= i < entries@.len() ==> {
                    &&& (#[trigger] entries@[i]).material_label == self.entries@[i].material_label
                    &&& entries@[i].shader_label == self.entries@[i].shader_label
                    &&& entries@[i].attributes@ == entry_attributes(self.entries@[i])
                }
            }),
    {
        if self.major_version == 1 && self.minor_version == 6 {
            let mut entries: Vec<MatlEntryV16> = Vec::new();
            let mut i: usize = 0;
            while i < self.entries.len()
                invariant
                    i <= self.entries@.len(),
                    entries@.len() == i,
                    forall|j: int| 0 <= j < i ==> {
                        &&& (#[trigger] entries@[j]).material_label == self.entries@[j].material_label
                        &&& entries@[j].shader_label == self.entries@[j].shader_label
                        &&& entries@[j].attributes@ == entry_attributes(self.entries@[j])
                    },
                decreases self.entries@.len() - i,
            {
                entries.push(entry_v16(&self.entries[i]));
                i = i + 1;
            }
            Ok(Matl::V16 { entries })
        } else {
            Err(Error::UnsupportedVersion { major_version: self.major_version, minor_version: self.minor_version })
        }
    }
}


/// Keeping and mapping items distributes over concatenation.
pub broadcast proof fn lemma_filter_map_add<A, B>(a: Seq<A>, b: Seq<A>, f: spec_fn(A) -> Option<B>)
    ensures
        #[trigger] (a + b).filter_map(f) == a.filter_map(f) + b.filter_map(f),
    decreases b.len(),
{
    if b.len() == 0 {
        assert(a + b =~= a);
        assert(a.filter_map(f) + b.filter_map(f) =~= a.filter_map(f));
    } else {
        lemma_filter_map_add(a, b.drop_last(), f);
        assert((a + b).drop_last() =~= a + b.drop_last());
        assert((a + b).last() == b.last());
        match f(b.last()) {
            Some(x) => {
                assert(a.filter_map(f) + b.filter_map(f) =~= a.filter_map(f) + b.drop_last().filter_map(f) + seq![x]);
            },
            None => {},
        }
    }
}

/// Items that `f` never keeps leave nothing.
proof fn lemma_filter_map_none<A, B, C>(s: Seq<C>, g: spec_fn(C) -> A, f: spec_fn(A) -> Option<B>)
    requires
        forall|x: C| #[trigger] f(g(x)) is None,
    ensures
        s.map_values(g).filter_map(f) == Seq::<B>::empty(),
    decreases s.len(),
{
    if s.len() > 0 {
        lemma_filter_map_none(s.drop_last(), g, f);
        assert(s.map_values(g).drop_last() =~= s.drop_last().map_values(g));
        assert(f(g(s.last())) is None);
    } else {
        assert(s.map_values(g) =~= Seq::<A>::empty());
    }
}

/// Items that `f` maps back to what `g` made them from give back the original sequence.
proof fn lemma_filter_map_inverse<A, B>(s: Seq<B>, g: spec_fn(B) -> A, f: spec_fn(A) -> Option<B>)
    requires
        forall|x: B| #[trigger] f(g(x)) == Some(x),
    ensures
        s.map_values(g).filter_map(f) == s,
    decreases s.len(),
{
    if s.len() > 0 {
        lemma_filter_map_inverse(s.drop_last(), g, f);
        assert(s.map_values(g).drop_last() =~= s.drop_last().map_values(g));
        assert(f(g(s.last())) == Some(s.last()));
        assert(s.drop_last() + seq![s.last()] =~= s);
    } else {
        assert(s.map_values(g) =~= Seq::<A>::empty());
    }
}

proof fn lemma_blend_state_params_roundtrip(e: MatlEntryData)
    ensures
        entry_attributes(e).filter_map(|a: AttributeV16| blend_state_param(a)) == e.blend_states@,
{
    broadcast use lemma_filter_map_add;

    lemma_filter_map_inverse(e.blend_states@, |p: ParamData<BlendStateData>| blend_state_attribute(p), |a: AttributeV16| blend_state_param(a));
    lemma_filter_map_none(e.booleans@, |p: ParamData<bool>| boolean_attribute(p), |a: AttributeV16| blend_state_param(a));
    lemma_filter_map_none(e.floats@, |p: ParamData<u32>| float_attribute(p), |a: AttributeV16| blend_state_param(a));
    lemma_filter_map_none(e.vectors@, |p: ParamData<[u32; 4]>| vector_attribute(p), |a: AttributeV16| blend_state_param(a));
    lemma_filter_map_none(e.rasterizer_states@, |p: ParamData<RasterizerStateData>| rasterizer_state_attribute(p), |a: AttributeV16| blend_state_param(a));
    lemma_filter_map_none(e.samplers@, |p: ParamData<SamplerData>| sampler_attribute(p), |a: AttributeV16| blend_state_param(a));
    lemma_filter_map_none(e.textures@, |p: ParamData<String>| texture_attribute(p), |a: AttributeV16| blend_state_param(a));
    assert(entry_attributes(e).filter_map(|a: AttributeV16| blend_state_param(a)) =~= e.blend_states@);
}

proof fn lemma_boolean_params_roundtrip(e: MatlEntryData)
    ensures
        entry_attributes(e).filter_map(|a: AttributeV16| boolean_param(a)) == e.booleans@,
{
    broadcast use lemma_filter_map_add;

    lemma_filter_map_none(e.blend_states@, |p: ParamData<BlendStateData>| blend_state_attribute(p), |a: AttributeV16| boolean_param(a));
    lemma_filter_map_inverse(e.booleans@, |p: ParamData<bool>| boolean_attribute(p), |a: AttributeV16| boolean_param(a));
    lemma_filter_map_none(e.floats@, |p: ParamData<u32>| float_attribute(p), |a: AttributeV16| boolean_param(a));
    lemma_filter_map_none(e.vectors@, |p: ParamData<[u32; 4]>| vector_attribute(p), |a: AttributeV16| boolean_param(a));
    lemma_filter_map_none(e.rasterizer_states@, |p: ParamData<RasterizerStateData>| rasterizer_state_attribute(p), |a: AttributeV16| boolean_param(a));
    lemma_filter_map_none(e.samplers@, |p: ParamData<SamplerData>| sampler_attribute(p), |a: AttributeV16| boolean_param(a));
    lemma_filter_map_none(e.textures@, |p: ParamData<String>| texture_attribute(p), |a: AttributeV16| boolean_param(a));
    assert(entry_attributes(e).filter_map(|a: AttributeV16| boolean_param(a)) =~= e.booleans@);
}

proof fn lemma_float_params_roundtrip(e: MatlEntryData)
    ensures
        entry_attributes(e).filter_map(|a: AttributeV16| float_param(a)) == e.floats@,
{
    broadcast use lemma_filter_map_add;

    lemma_filter_map_none(e.blend_states@, |p: ParamData<BlendStateData>| blend_state_attribute(p), |a: AttributeV16| float_param(a));
    lemma_filter_map_none(e.booleans@, |p: ParamData<bool>| boolean_attribute(p), |a: AttributeV16| float_param(a));
    lemma_filter_map_inverse(e.floats@, |p: ParamData<u32>| float_attribute(p), |a: AttributeV16| float_param(a));
    lemma_filter_map_none(e.vectors@, |p: ParamData<[u32; 4]>| vector_attribute(p), |a: AttributeV16| float_param(a));
    lemma_filter_map_none(e.rasterizer_states@, |p: ParamData<RasterizerStateData>| rasterizer_state_attribute(p), |a: AttributeV16| float_param(a));
    lemma_filter_map_none(e.samplers@, |p: ParamData<SamplerData>| sampler_attribute(p), |a: AttributeV16| float_param(a));
    lemma_filter_map_none(e.textures@, |p: ParamData<String>| texture_attribute(p), |a: AttributeV16| float_param(a));
    assert(entry_attributes(e).filter_map(|a: AttributeV16| float_param(a)) =~= e.floats@);
}

proof fn lemma_vector_params_roundtrip(e: MatlEntryData)
    ensures
        entry_attributes(e).filter_map(|a: AttributeV16| vector_param(a)) == e.vectors@,
{
    broadcast use lemma_filter_map_add;

    lemma_filter_map_none(e.blend_states@, |p: ParamData<BlendStateData>| blend_state_attribute(p), |a: AttributeV16| vector_param(a));
    lemma_filter_map_none(e.booleans@, |p: ParamData<bool>| boolean_attribute(p), |a: AttributeV16| vector_param(a));
    lemma_filter_map_none(e.floats@, |p: ParamData<u32>| float_attribute(p), |a: AttributeV16| vector_param(a));
    lemma_filter_map_inverse(e.vectors@, |p: ParamData<[u32; 4]>| vector_attribute(p), |a: AttributeV16| vector_param(a));
    lemma_filter_map_none(e.rasterizer_states@, |p: ParamData<RasterizerStateData>| rasterizer_state_attribute(p), |a: AttributeV16| vector_param(a));
    lemma_filter_map_none(e.samplers@, |p: ParamData<SamplerData>| sampler_attribute(p), |a: AttributeV16| vector_param(a));
    lemma_filter_map_none(e.textures@, |p: ParamData<String>| texture_attribute(p), |a: AttributeV16| vector_param(a));
    assert(entry_attributes(e).filter_map(|a: AttributeV16| vector_param(a)) =~= e.vectors@);
}

proof fn lemma_rasterizer_state_params_roundtrip(e: MatlEntryData)
    ensures
        entry_attributes(e).filter_map(|a: AttributeV16| rasterizer_state_param(a)) == e.rasterizer_states@,
{
    broadcast use lemma_filter_map_add;

    lemma_filter_map_none(e.blend_states@, |p: ParamData<BlendStateData>| blend_state_attribute(p), |a: AttributeV16| rasterizer_state_param(a));
    lemma_filter_map_none(e.booleans@, |p: ParamData<bool>| boolean_attribute(p), |a: AttributeV16| rasterizer_state_param(a));
    lemma_filter_map_none(e.floats@, |p: ParamData<u32>| float_attribute(p), |a: AttributeV16| rasterizer_state_param(a));
    lemma_filter_map_none(e.vectors@, |p: ParamData<[u32; 4]>| vector_attribute(p), |a: AttributeV16| rasterizer_state_param(a));
    lemma_filter_map_inverse(e.rasterizer_states@, |p: ParamData<RasterizerStateData>| rasterizer_state_attribute(p), |a: AttributeV16| rasterizer_state_param(a));
    lemma_filter_map_none(e.samplers@, |p: ParamData<SamplerData>| sampler_attribute(p), |a: AttributeV16| rasterizer_state_param(a));
    lemma_filter_map_none(e.textures@, |p: ParamData<String>| texture_attribute(p), |a: AttributeV16| rasterizer_state_param(a));
    assert(entry_attributes(e).filter_map(|a: AttributeV16| rasterizer_state_param(a)) =~= e.rasterizer_states@);
}

proof fn lemma_sampler_params_roundtrip(e: MatlEntryData)
    ensures
        entry_attributes(e).filter_map(|a: AttributeV16| sampler_param(a)) == e.samplers@,
{
    broadcast use lemma_filter_map_add;

    lemma_filter_map_none(e.blend_states@, |p: ParamData<BlendStateData>| blend_state_attribute(p), |a: AttributeV16| sampler_param(a));
    lemma_filter_map_none(e.booleans@, |p: ParamData<bool>| boolean_attribute(p), |a: AttributeV16| sampler_param(a));
    lemma_filter_map_none(e.floats@, |p: ParamData<u32>| float_attribute(p), |a: AttributeV16| sampler_param(a));
    lemma_filter_map_none(e.vectors@, |p: ParamData<[u32; 4]>| vector_attribute(p), |a: AttributeV16| sampler_param(a));
    lemma_filter_map_none(e.rasterizer_states@, |p: ParamData<RasterizerStateData>| rasterizer_state_attribute(p), |a: AttributeV16| sampler_param(a));
    lemma_filter_map_inverse(e.samplers@, |p: ParamData<SamplerData>| sampler_attribute(p), |a: AttributeV16| sampler_param(a));
    lemma_filter_map_none(e.textures@, |p: ParamData<String>| texture_attribute(p), |a: AttributeV16| sampler_param(a));
    assert(entry_attributes(e).filter_map(|a: AttributeV16| sampler_param(a)) =~= e.samplers@);
}

proof fn lemma_texture_params_roundtrip(e: MatlEntryData)
    ensures
        entry_attributes(e).filter_map(|a: AttributeV16| texture_param(a)) == e.textures@,
{
    broadcast use lemma_filter_map_add;

    lemma_filter_map_none(e.blend_states@, |p: ParamData<BlendStateData>| blend_state_attribute(p), |a: AttributeV16| texture_param(a));
    lemma_filter_map_none(e.booleans@, |p: ParamData<bool>| boolean_attribute(p), |a: AttributeV16| texture_param(a));
    lemma_filter_map_none(e.floats@, |p: ParamData<u32>| float_attribute(p), |a: AttributeV16| texture_param(a));
    lemma_filter_map_none(e.vectors@, |p: ParamData<[u32; 4]>| vector_attribute(p), |a: AttributeV16| texture_param(a));
    lemma_filter_map_none(e.rasterizer_states@, |p: ParamData<RasterizerStateData>| rasterizer_state_attribute(p), |a: AttributeV16| texture_param(a));
    lemma_filter_map_none(e.samplers@, |p: ParamData<SamplerData>| sampler_attribute(p), |a: AttributeV16| texture_param(a));
    lemma_filter_map_inverse(e.textures@, |p: ParamData<String>| texture_attribute(p), |a: AttributeV16| texture_param(a));
    assert(entry_attributes(e).filter_map(|a: AttributeV16| texture_param(a)) =~= e.textures@);
}

/// Writing a material's parameters to the file's attribute list and grouping them again
/// gives back the same parameters of each type, in the same order.
pub proof fn lemma_matl_entry_roundtrip(e: MatlEntryData)
    ensures
        entry_params_match(e, entry_attributes(e)),
{
    lemma_blend_state_params_roundtrip(e);
    lemma_boolean_params_roundtrip(e);
    lemma_float_params_roundtrip(e);
    lemma_vector_params_roundtrip(e);
    lemma_rasterizer_state_params_roundtrip(e);
    lemma_sampler_params_roundtrip(e);
    lemma_texture_params_roundtrip(e);
}

} // verus!
