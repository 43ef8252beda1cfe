use pmx_model_core::weights::{normalize, VertexWeightBinding, WeightKind, WEIGHT_ONE};

fn quarter() -> i64 {
    WEIGHT_ONE / 4
}

#[test]
fn normalize_bdef1_single_bone() {
    let r = normalize(&VertexWeightBinding::BDEF1(5));
    assert_eq!(r.weights, [WEIGHT_ONE, 0, 0, 0]);
    assert_eq!(r.bone_indices, [5, -1, -1, -1]);
}

#[test]
fn normalize_bdef2_complements_weight() {
    let r = normalize(&VertexWeightBinding::BDEF2 {
        bone_index_1: 3,
        bone_index_2: 7,
        bone_weight_1: quarter(),
    });
    assert_eq!(r.weights, [quarter(), 3 * quarter(), 0, 0]);
    assert_eq!(r.bone_indices, [3, 7, -1, -1]);
}

#[test]
fn normalize_bdef4_passes_weights_through() {
    let r = normalize(&VertexWeightBinding::BDEF4 {
        bone_index_1: 1,
        bone_index_2: 2,
        bone_index_3: 3,
        bone_index_4: 4,
        bone_weight_1: 400_000,
        bone_weight_2: 300_000,
        bone_weight_3: 200_000,
        bone_weight_4: 100_000,
    });
    assert_eq!(r.weights, [400_000, 300_000, 200_000, 100_000]);
    assert_eq!(r.bone_indices, [1, 2, 3, 4]);
}

#[test]
fn normalize_bdef4_keeps_unnormalized_sum() {
    // The four weights sum to far more than one and stay untouched.
    let r = normalize(&VertexWeightBinding::BDEF4 {
        bone_index_1: 9,
        bone_index_2: 8,
        bone_index_3: 7,
        bone_index_4: 6,
        bone_weight_1: WEIGHT_ONE,
        bone_weight_2: WEIGHT_ONE,
        bone_weight_3: WEIGHT_ONE,
        bone_weight_4: WEIGHT_ONE,
    });
    assert_eq!(r.weights, [WEIGHT_ONE, WEIGHT_ONE, WEIGHT_ONE, WEIGHT_ONE]);
    assert_eq!(r.bone_indices, [9, 8, 7, 6]);
}

#[test]
fn normalize_sdef_drops_correction_vectors() {
    let r = normalize(&VertexWeightBinding::SDEF {
        bone_index_1: 0,
        bone_index_2: 1,
        bone_weight_1: 600_000,
        sdef_c: [0x3f80_0000, 0x4000_0000, 0x4040_0000],
        sdef_r0: [1, 2, 3],
        sdef_r1: [u32::MAX, 0, 42],
    });
    assert_eq!(r.weights, [600_000, 400_000, 0, 0]);
    assert_eq!(r.bone_indices, [0, 1, -1, -1]);
    // The same blend with other correction vectors projects identically.
    let r2 = normalize(&VertexWeightBinding::SDEF {
        bone_index_1: 0,
        bone_index_2: 1,
        bone_weight_1: 600_000,
        sdef_c: [0, 0, 0],
        sdef_r0: [0, 0, 0],
        sdef_r1: [0, 0, 0],
    });
    assert_eq!(r.weights, r2.weights);
    assert_eq!(r.bone_indices, r2.bone_indices);
}

#[test]
fn normalize_qdef_matches_bdef4_shape() {
    let r = normalize(&VertexWeightBinding::QDEF {
        bone_index_1: 10,
        bone_index_2: 11,
        bone_index_3: 12,
        bone_index_4: 13,
        bone_weight_1: 250_000,
        bone_weight_2: 250_000,
        bone_weight_3: 250_000,
        bone_weight_4: 250_000,
    });
    assert_eq!(r.weights, [250_000, 250_000, 250_000, 250_000]);
    assert_eq!(r.bone_indices, [10, 11, 12, 13]);
}

#[test]
fn normalize_bdef2_negative_weight_complement_exceeds_one() {
    let r = normalize(&VertexWeightBinding::BDEF2 {
        bone_index_1: 0,
        bone_index_2: 1,
        bone_weight_1: -WEIGHT_ONE,
    });
    assert_eq!(r.weights, [-WEIGHT_ONE, 2 * WEIGHT_ONE, 0, 0]);
}

#[test]
fn weight_kind_of_each_binding() {
    assert_eq!(WeightKind::from(VertexWeightBinding::BDEF1(0)), WeightKind::BDEF1);
    assert_eq!(
        WeightKind::from(VertexWeightBinding::BDEF2 {
            bone_index_1: 0,
            bone_index_2: 1,
            bone_weight_1: 0,
        }),
        WeightKind::BDEF2
    );
    assert_eq!(
        WeightKind::from(VertexWeightBinding::SDEF {
            bone_index_1: 0,
            bone_index_2: 1,
            bone_weight_1: 0,
            sdef_c: [0, 0, 0],
            sdef_r0: [0, 0, 0],
            sdef_r1: [0, 0, 0],
        }),
        WeightKind::Sdef
    );
}

#[test]
fn weight_kind_labels() {
    assert_eq!(WeightKind::BDEF1.to_string(), "BDEF1");
    assert_eq!(WeightKind::BDEF2.to_string(), "BDEF2");
    assert_eq!(WeightKind::BDEF4.to_string(), "BDEF4");
    assert_eq!(WeightKind::Sdef.to_string(), "SDEF");
    assert_eq!(WeightKind::Qdef.to_string(), "QDEF");
}
