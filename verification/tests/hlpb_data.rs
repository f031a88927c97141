use ssbh_data::hlpb_data::{
    constraint_indices, constraint_types, AimConstraintData, ConstraintType, HlpbData, HlpbV11,
    OrientConstraintData,
};

fn v3(x: f32, y: f32, z: f32) -> [u32; 3] {
    [x.to_bits(), y.to_bits(), z.to_bits()]
}

fn v4(x: f32, y: f32, z: f32, w: f32) -> [u32; 4] {
    [x.to_bits(), y.to_bits(), z.to_bits(), w.to_bits()]
}

fn aim1() -> AimConstraintData {
    AimConstraintData {
        name: "aim1".to_string(),
        aim_bone_name1: "root".to_string(),
        aim_bone_name2: "root".to_string(),
        aim_type1: "DEFAULT".to_string(),
        aim_type2: "DEFAULT".to_string(),
        target_bone_name1: "a".to_string(),
        target_bone_name2: "a".to_string(),
        unk1: 0,
        unk2: 1,
        aim: v3(1.0, 0.0, 0.0),
        up: v3(0.0, 1.0, 0.0),
        quat1: v4(0.0, 0.0, 0.0, 1.0),
        quat2: v4(0.0, 0.0, 0.0, 1.0),
    }
}

fn orient(name: &str, parent: &str, source: &str, target: &str) -> OrientConstraintData {
    OrientConstraintData {
        name: name.to_string(),
        parent_bone_name1: parent.to_string(),
        parent_bone_name2: parent.to_string(),
        source_bone_name: source.to_string(),
        target_bone_name: target.to_string(),
        unk_type: 2,
        constraint_axes: v3(0.5, 0.5, 0.5),
        quat1: v4(0.0, 0.0, 0.0, 1.0),
        quat2: v4(0.0, 0.0, 0.0, 1.0),
        range_min: v3(-180.0, -180.0, -180.0),
        range_max: v3(180.0, 180.0, 180.0),
    }
}

#[test]
fn create_hlpb_hlpb_data() {
    // Test both conversion directions.
    let ssbh = HlpbV11 {
        aim_constraints: vec![aim1()],
        orient_constraints: vec![
            orient("orient1", "ArmL", "HandL", "H_WristL"),
            orient("orient2", "ArmR", "HandR", "H_WristR"),
        ],
        constraint_indices: vec![0, 0, 1],
        constraint_types: vec![
            ConstraintType::Aim,
            ConstraintType::Orient,
            ConstraintType::Orient,
        ],
    };

    let data = HlpbData {
        major_version: 1,
        minor_version: 0,
        aim_constraints: vec![aim1()],
        orient_constraints: vec![
            orient("orient1", "ArmL", "HandL", "H_WristL"),
            orient("orient2", "ArmR", "HandR", "H_WristR"),
        ],
    };

    assert_eq!(data, ssbh.clone().into_data());
    assert_eq!(ssbh, data.clone().into_hlpb());
}

#[test]
fn hlpb_roundtrip_keeps_data() {
    let data = HlpbData {
        major_version: 1,
        minor_version: 0,
        aim_constraints: vec![aim1(), aim1()],
        orient_constraints: vec![orient("o", "p", "s", "t")],
    };
    assert_eq!(data, data.clone().into_hlpb().into_data());
}

#[test]
fn hlpb_empty_constraint_list() {
    let data = HlpbData {
        major_version: 1,
        minor_version: 0,
        aim_constraints: Vec::new(),
        orient_constraints: Vec::new(),
    };
    let hlpb = data.into_hlpb();
    assert!(hlpb.constraint_indices.is_empty());
    assert!(hlpb.constraint_types.is_empty());
}

#[test]
fn hlpb_constraint_list_counts() {
    assert_eq!(vec![0, 1, 2, 0, 1], constraint_indices(3, 2));
    assert_eq!(
        vec![
            ConstraintType::Aim,
            ConstraintType::Orient,
            ConstraintType::Orient,
            ConstraintType::Orient
        ],
        constraint_types(1, 3)
    );
}
