//! The five skinning-weight encodings of a vertex and their uniform
//! four-slot projection.
//!
//! Weight scalars are held in fixed point: [`WEIGHT_ONE`] units stand for
//! a full weight of one, so the derived second weight of a two-bone blend
//! is the integer complement `WEIGHT_ONE - w`. Auxiliary correction
//! vectors of the spherical blend carry raw IEEE-754 bit patterns; the
//! core never computes with them and the projection drops them.

use vstd::prelude::*;

verus! {

/// Number of fixed-point units standing for a weight of one.
pub const WEIGHT_ONE: i64 = 1_000_000;

/// One skinning-weight binding of a vertex, in one of five shapes.
///
/// Bone references are positions in the flat bone list. Correction
/// vectors (`sdef_c`, `sdef_r0`, `sdef_r1`) are carried as raw bit
/// patterns, three components each.
#[derive(Debug, Clone, Copy, PartialEq)]
pub enum VertexWeightBinding {
    /// One bone, weight fixed at one.
    BDEF1(i32),
    /// Two bones; the second weight is derived as the complement.
    BDEF2 { bone_index_1: i32, bone_index_2: i32, bone_weight_1: i64 },
    /// Four bones with four independent weights, not required to sum to one.
    BDEF4 {
        bone_index_1: i32,
        bone_index_2: i32,
        bone_index_3: i32,
        bone_index_4: i32,
        bone_weight_1: i64,
        bone_weight_2: i64,
        bone_weight_3: i64,
        bone_weight_4: i64,
    },
    /// Spherical blend: a two-bone blend plus correction geometry.
    SDEF {
        bone_index_1: i32,
        bone_index_2: i32,
        bone_weight_1: i64,
        sdef_c: [u32; 3],
        sdef_r0: [u32; 3],
        sdef_r1: [u32; 3],
    },
    /// Quaternion blend; shape-identical to the four-bone linear blend.
    QDEF {
        bone_index_1: i32,
        bone_index_2: i32,
        bone_index_3: i32,
        bone_index_4: i32,
        bone_weight_1: i64,
        bone_weight_2: i64,
        bone_weight_3: i64,
        bone_weight_4: i64,
    },
}

/// The tag of a [`VertexWeightBinding`], for display and selection.
#[derive(Debug, Copy, Clone, Eq, PartialEq, Structural)]
pub enum WeightKind {
    BDEF1,
    BDEF2,
    BDEF4,
    Sdef,
    Qdef,
}

/// The kind that tags each binding shape.
pub open spec fn spec_kind_of(b: VertexWeightBinding) -> WeightKind {
    match b {
        VertexWeightBinding::BDEF1(..) => WeightKind::BDEF1,
        VertexWeightBinding::BDEF2 { .. } => WeightKind::BDEF2,
        VertexWeightBinding::BDEF4 { .. } => WeightKind::BDEF4,
        VertexWeightBinding::SDEF { .. } => WeightKind::Sdef,
        VertexWeightBinding::QDEF { .. } => WeightKind::Qdef,
    }
}

impl WeightKind {
    /// The display label of the kind.
    pub fn to_string(&self) -> (r: String)
        ensures
            *self == WeightKind::BDEF1 ==> r@ == "BDEF1"@,
            *self == WeightKind::BDEF2 ==> r@ == "BDEF2"@,
            *self == WeightKind::BDEF4 ==> r@ == "BDEF4"@,
            *self == WeightKind::Sdef ==> r@ == "SDEF"@,
            *self == WeightKind::Qdef ==> r@ == "QDEF"@,
    {
        match self {
            WeightKind::BDEF1 => "BDEF1",
            WeightKind::BDEF2 => "BDEF2",
            WeightKind::BDEF4 => "BDEF4",
            WeightKind::Sdef => "SDEF",
            WeightKind::Qdef => "QDEF",
        }.to_string()
    }
}

impl From<VertexWeightBinding> for WeightKind {
    /// The kind of a binding.
    fn from(weight: VertexWeightBinding) -> (r: Self) {
        match weight {
            VertexWeightBinding::BDEF1(..) => WeightKind::BDEF1,
            VertexWeightBinding::BDEF2 { .. } => WeightKind::BDEF2,
            VertexWeightBinding::BDEF4 { .. } => WeightKind::BDEF4,
            VertexWeightBinding::SDEF { .. } => WeightKind::Sdef,
            VertexWeightBinding::QDEF { .. } => WeightKind::Qdef,
        }
    }
}

impl vstd::std_specs::convert::FromSpecImpl<VertexWeightBinding> for WeightKind {
    open spec fn obeys_from_spec() -> bool {
        true
    }

    open spec fn from_spec(weight: VertexWeightBinding) -> Self {
        spec_kind_of(weight)
    }
}

/// The uniform four-slot projection of a binding: four weight scalars and
/// four bone references, `-1` marking an unused slot.
#[derive(Debug, Clone, Copy, PartialEq)]
pub struct NormalizedWeight {
    pub weights: [i64; 4],
    pub bone_indices: [i32; 4],
}

/// The complement `WEIGHT_ONE - w`, saturated at the top of the machine
/// range so that the projection stays total.
pub open spec fn spec_complement(w: i64) -> i64 {
    if WEIGHT_ONE - w > i64::MAX {
        i64::MAX
    } else {
        (WEIGHT_ONE - w) as i64
    }
}

/// The four weight slots of the projection of `b`.
pub open spec fn spec_normalized_weights(b: VertexWeightBinding) -> Seq<i64> {
    match b {
        VertexWeightBinding::BDEF1(..) => seq![WEIGHT_ONE, 0i64, 0i64, 0i64],
        VertexWeightBinding::BDEF2 { bone_weight_1, .. } => seq![
            bone_weight_1,
            spec_complement(bone_weight_1),
            0i64,
            0i64,
        ],
        VertexWeightBinding::BDEF4 {
            bone_weight_1,
            bone_weight_2,
            bone_weight_3,
            bone_weight_4,
            ..
        } => seq![bone_weight_1, bone_weight_2, bone_weight_3, bone_weight_4],
        VertexWeightBinding::SDEF { bone_weight_1, .. } => seq![
            bone_weight_1,
            spec_complement(bone_weight_1),
            0i64,
            0i64,
        ],
        VertexWeightBinding::QDEF {
            bone_weight_1,
            bone_weight_2,
            bone_weight_3,
            bone_weight_4,
            ..
        } => seq![bone_weight_1, bone_weight_2, bone_weight_3, bone_weight_4],
    }
}

/// The four bone-reference slots of the projection of `b`.
pub open spec fn spec_normalized_indices(b: VertexWeightBinding) -> Seq<i32> {
    match b {
        VertexWeightBinding::BDEF1(bone_index_1) => seq![bone_index_1, -1i32, -1i32, -1i32],
        VertexWeightBinding::BDEF2 { bone_index_1, bone_index_2, .. } => seq![
            bone_index_1,
            bone_index_2,
            -1i32,
            -1i32,
        ],
        VertexWeightBinding::BDEF4 {
            bone_index_1,
            bone_index_2,
            bone_index_3,
            bone_index_4,
            ..
        } => seq![bone_index_1, bone_index_2, bone_index_3, bone_index_4],
        VertexWeightBinding::SDEF { bone_index_1, bone_index_2, .. } => seq![
            bone_index_1,
            bone_index_2,
            -1i32,
            -1i32,
        ],
        VertexWeightBinding::QDEF {
            bone_index_1,
            bone_index_2,
            bone_index_3,
            bone_index_4,
            ..
        } => seq![bone_index_1, bone_index_2, bone_index_3, bone_index_4],
    }
}

/// The complement `WEIGHT_ONE - w`, saturated at `i64::MAX`.
fn complement(w: i64) -> (r: i64)
    ensures
        r == spec_complement(w),
{
    if w >= WEIGHT_ONE - i64::MAX {
        WEIGHT_ONE - w
    } else {
        i64::MAX
    }
}

/// Project a binding into the uniform four-slot shape.
///
/// The first one, two or four slots carry the binding's bone references
/// and weights; a two-bone blend gets the derived complement as its
/// second weight; four-bone weights pass through unrenormalized; the
/// correction vectors of a spherical blend are dropped.
pub fn normalize(binding: &VertexWeightBinding) -> (r: NormalizedWeight)
    ensures
        r.weights@ == spec_normalized_weights(*binding),
        r.bone_indices@ == spec_normalized_indices(*binding),
{
    let r = match *binding {
        VertexWeightBinding::BDEF1(bone_index_1) => NormalizedWeight {
            weights: [WEIGHT_ONE, 0, 0, 0],
            bone_indices: [bone_index_1, -1, -1, -1],
        },
        VertexWeightBinding::BDEF2 { bone_index_1, bone_index_2, bone_weight_1 } =>
            NormalizedWeight {
                weights: [bone_weight_1, complement(bone_weight_1), 0, 0],
                bone_indices: [bone_index_1, bone_index_2, -1, -1],
            },
        VertexWeightBinding::BDEF4 {
            bone_index_1,
            bone_index_2,
            bone_index_3,
            bone_index_4,
            bone_weight_1,
            bone_weight_2,
            bone_weight_3,
            bone_weight_4,
        } => NormalizedWeight {
            weights: [bone_weight_1, bone_weight_2, bone_weight_3, bone_weight_4],
            bone_indices: [bone_index_1, bone_index_2, bone_index_3, bone_index_4],
        },
        VertexWeightBinding::SDEF { bone_index_1, bone_index_2, bone_weight_1, .. } =>
            NormalizedWeight {
                weights: [bone_weight_1, complement(bone_weight_1), 0, 0],
                bone_indices: [bone_index_1, bone_index_2, -1, -1],
            },
        VertexWeightBinding::QDEF {
            bone_index_1,
            bone_index_2,
            bone_index_3,
            bone_index_4,
            bone_weight_1,
            bone_weight_2,
            bone_weight_3,
            bone_weight_4,
        } => NormalizedWeight {
            weights: [bone_weight_1, bone_weight_2, bone_weight_3, bone_weight_4],
            bone_indices: [bone_index_1, bone_index_2, bone_index_3, bone_index_4],
        },
    };
    proof {
        assert(r.weights@ =~= spec_normalized_weights(*binding));
        assert(r.bone_indices@ =~= spec_normalized_indices(*binding));
    }
    r
}

} // verus!
