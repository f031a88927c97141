//! Helper bone constraints of .nuhlpb files.
//!
//! [HlpbData] lists the aim and orient constraints. The file stores them together with two
//! parallel lists, [HlpbV11::constraint_indices] and [HlpbV11::constraint_types], that give
//! each constraint its position within the list of its kind.
use vstd::prelude::*;

verus! {

/// The data associated with a helper bone file.
/// The supported version is 1.0.
#[derive(Debug, PartialEq, Clone)]
pub struct HlpbData {
    pub major_version: u16,
    pub minor_version: u16,
    pub aim_constraints: Vec<AimConstraintData>,
    pub orient_constraints: Vec<OrientConstraintData>,
}

/// Data associated with an aim constraint.
/// Vector and quaternion components are carried as their `f32` bit patterns.
#[derive(Debug, PartialEq, Clone)]
pub struct AimConstraintData {
    pub name: String,
    pub aim_bone_name1: String,
    pub aim_bone_name2: String,
    pub aim_type1: String,
    pub aim_type2: String,
    pub target_bone_name1: String,
    pub target_bone_name2: String,
    pub unk1: u32,
    pub unk2: u32,
    pub aim: [u32; 3],
    pub up: [u32; 3],
    pub quat1: [u32; 4],
    pub quat2: [u32; 4],
}

/// Data associated with an orient constraint.
/// Vector and quaternion components are carried as their `f32` bit patterns.
#[derive(Debug, PartialEq, Clone)]
pub struct OrientConstraintData {
    pub name: String,
    pub parent_bone_name1: String,
    pub parent_bone_name2: String,
    pub source_bone_name: String,
    pub target_bone_name: String,
    pub unk_type: u32,
    pub constraint_axes: [u32; 3],
    pub quat1: [u32; 4],
    pub quat2: [u32; 4],
    pub range_min: [u32; 3],
    pub range_max: [u32; 3],
}

/// The kind of constraint that an entry of the file's constraint list refers to.
#[derive(Debug, PartialEq, Eq, Structural, Clone, Copy)]
pub enum ConstraintType {
    Aim,
    Orient,
}

/// The constraints as the version 1.1 file layout stores them.
/// Entry `i` of the constraint list is the constraint with index `constraint_indices[i]`
/// in the list that `constraint_types[i]` names.
#[derive(Debug, PartialEq, Clone)]
pub struct HlpbV11 {
    pub aim_constraints: Vec<AimConstraintData>,
    pub orient_constraints: Vec<OrientConstraintData>,
    pub constraint_indices: Vec<u32>,
    pub constraint_types: Vec<ConstraintType>,
}

/// The constraint list's indices: `0, 1, ..` for the aim constraints, then `0, 1, ..` for the
/// orient constraints. Each count is written as a `u32`.
pub open spec fn spec_constraint_indices(aim_count: usize, orient_count: usize) -> Seq<u32> {
    let a = aim_count as u32;
    let o = orient_count as u32;
    Seq::new((a + o) as nat, |i: int| if i < a { i as u32 } else { (i - a) as u32 })
}

/// The constraint list's types: one `Aim` for each aim constraint, then one `Orient` for each
/// orient constraint.
pub open spec fn spec_constraint_types(aim_count: usize, orient_count: usize) -> Seq<ConstraintType> {
    Seq::new(
        (aim_count + orient_count) as nat,
        |i: int| if i < aim_count { ConstraintType::Aim } else { ConstraintType::Orient },
    )
}

/// `hlpb` is the file layout of `data`: the same constraints, and the constraint list that
/// numbers the aim constraints and then the orient constraints.
pub open spec fn hlpb_written_from(hlpb: HlpbV11, data: HlpbData) -> bool {
    &&& hlpb.aim_constraints@ == data.aim_constraints@
    &&& hlpb.orient_constraints@ == data.orient_constraints@
    &&& hlpb.constraint_indices@ == spec_constraint_indices(
        data.aim_constraints@.len() as usize,
        data.orient_constraints@.len() as usize,
    )
    &&& hlpb.constraint_types@ == spec_constraint_types(
        data.aim_constraints@.len() as usize,
        data.orient_constraints@.len() as usize,
    )
}

/// `data` is the data of the file layout `hlpb`: version 1.0 with the same constraints.
pub open spec fn data_read_from(data: HlpbData, hlpb: HlpbV11) -> bool {
    &&& data.major_version == 1
    &&& data.minor_version == 0
    &&& data.aim_constraints@ == hlpb.aim_constraints@
    &&& data.orient_constraints@ == hlpb.orient_constraints@
}

/// Every entry of the constraint list refers to an existing constraint of its type.
pub open spec fn constraint_list_valid(hlpb: HlpbV11) -> bool {
    &&& hlpb.constraint_indices@.len() == hlpb.constraint_types@.len()
    &&& forall|i: int| 0 <= i < hlpb.constraint_indices@.len() ==>
        (match #[trigger] hlpb.constraint_types@[i] {
            ConstraintType::Aim => hlpb.constraint_indices@[i] < hlpb.aim_constraints@.len(),
            ConstraintType::Orient => hlpb.constraint_indices@[i] < hlpb.orient_constraints@.len(),
        })
}

/// The constraint list's indices for `aim_count` aim and `orient_count` orient constraints.
pub fn constraint_indices(aim_count: usize, orient_count: usize) -> (r: Vec<u32>)
    ensures
        r@ == spec_constraint_indices(aim_count, orient_count),
{
    let a: u32 = aim_count as u32;
    let o: u32 = orient_count as u32;
    let mut r: Vec<u32> = Vec::new();
    let mut i: u32 = 0;
    while i < a
        invariant
            i <= a,
            r@ =~= Seq::new(i as nat, |k: int| k as u32),
        decreases a - i,
    {
        r.push(i);
        i = i + 1;
    }
    let mut j: u32 = 0;
    while j < o
        invariant
            j <= o,
            r@ =~= Seq::new((a + j) as nat, |k: int| if k < a { k as u32 } else { (k - a) as u32 }),
        decreases o - j,
    {
        r.push(j);
        j = j + 1;
    }
    proof {
        assert(r@ =~= spec_constraint_indices(aim_count, orient_count));
    }
    r
}

/// The constraint list's types for `aim_count` aim and `orient_count` orient constraints.
pub fn constraint_types(aim_count: usize, orient_count: usize) -> (r: Vec<ConstraintType>)
    requires
        aim_count + orient_count <= usize::MAX,
    ensures
        r@ == spec_constraint_types(aim_count, orient_count),
{
    let mut r: Vec<ConstraintType> = Vec::new();
    let mut i: usize = 0;
    while i < aim_count
        invariant
            i <= aim_count,
            r@ =~= Seq::new(i as nat, |k: int| ConstraintType::Aim),
        decreases aim_count - i,
    {
        r.push(ConstraintType::Aim);
        i = i + 1;
    }
    let mut j: usize = 0;
    while j < orient_count
        invariant
            j <= orient_count,
            aim_count + orient_count <= usize::MAX,
            r@ =~= Seq::new(
                (aim_count + j) as nat,
                |k: int| if k < aim_count { ConstraintType::Aim } else { ConstraintType::Orient },
            ),
        decreases orient_count - j,
    {
        r.push(ConstraintType::Orient);
        j = j + 1;
    }
    r
}

impl HlpbData {
    /// Converts the data to the version 1.1 file layout, numbering the aim constraints and
    /// then the orient constraints in the constraint list.
    pub fn into_hlpb(self) -> (r: HlpbV11)
        requires
            self.aim_constraints@.len() + self.orient_constraints@.len() <= usize::MAX,
        ensures
            hlpb_written_from(r, self),
    {
        let a = self.aim_constraints.len();
        let o = self.orient_constraints.len();
        let indices = constraint_indices(a, o);
        let types = constraint_types(a, o);
        HlpbV11 {
            aim_constraints: self.aim_constraints,
            orient_constraints: self.orient_constraints,
            constraint_indices: indices,
            constraint_types: types,
        }
    }
}

impl HlpbV11 {
    /// Converts a version 1.1 file to its data, version 1.0. The constraint list is not kept:
    /// it is rebuilt from the two lists of constraints when the data is written.
    pub fn into_data(self) -> (r: HlpbData)
        ensures
            data_read_from(r, self),
    {
        HlpbData {
            major_version: 1,
            minor_version: 0,
            aim_constraints: self.aim_constraints,
            orient_constraints: self.orient_constraints,
        }
    }
}

/// Writing data of version 1.0 and reading it back gives the same data.
pub proof fn lemma_hlpb_roundtrip(data: HlpbData, hlpb: HlpbV11, read: HlpbData)
    requires
        data.major_version == 1,
        data.minor_version == 0,
        hlpb_written_from(hlpb, data),
        data_read_from(read, hlpb),
    ensures
        read.major_version == data.major_version,
        read.minor_version == data.minor_version,
        read.aim_constraints@ == data.aim_constraints@,
        read.orient_constraints@ == data.orient_constraints@,
{
}

/// The constraint list of written data has one entry per constraint, and each entry refers
/// to an existing constraint of its type, when each count fits in a `u32`.
pub proof fn lemma_written_constraint_list_valid(data: HlpbData, hlpb: HlpbV11)
    requires
        data.aim_constraints@.len() <= u32::MAX,
        data.orient_constraints@.len() <= u32::MAX,
        hlpb_written_from(hlpb, data),
    ensures
        constraint_list_valid(hlpb),
        hlpb.constraint_indices@.len() == data.aim_constraints@.len() + data.orient_constraints@.len(),
{
    let a = data.aim_constraints@.len() as usize;
    let o = data.orient_constraints@.len() as usize;
    assert(a as u32 == a);
    assert(o as u32 == o);
}

} // verus!
