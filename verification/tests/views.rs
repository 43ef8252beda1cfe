use pmx_model_core::model::{
    BoneRecord, Encode, Lang, PMXBoneFlags, PMXHeader, PMXModelInfo,
    BONE_FLAG_ALLOW_ROTATE_MASK, BONE_FLAG_ALLOW_TRANSLATE_MASK,
    BONE_FLAG_DEFORM_AFTER_PHYSICS_MASK, BONE_FLAG_TARGET_SHOW_MODE_MASK,
};
use pmx_model_core::views::{EguiBoneView, PMXInfoView, PMXVertexView, TabKind, Tabs, VertexRecord};
use pmx_model_core::weights::VertexWeightBinding;

fn bone(name: &str, english: &str, parent: i32) -> BoneRecord {
    BoneRecord {
        name: name.to_string(),
        english_name: english.to_string(),
        parent,
        deform_depth: 0,
        boneflag: 0,
    }
}

fn header() -> PMXHeader {
    PMXHeader { encode: Encode::UTF16LE, additional_uv: 2 }
}

fn model_info() -> PMXModelInfo {
    PMXModelInfo {
        name: "model".to_string(),
        name_en: "model-en".to_string(),
        comment: "c".to_string(),
        comment_en: "c-en".to_string(),
    }
}

#[test]
fn tabs_report_current_tab() {
    let mut tabs = Tabs(TabKind::Info);
    assert_eq!(tabs.get_current_tab(), TabKind::Info);
    tabs.0 = TabKind::Bone;
    assert_eq!(tabs.get_current_tab(), TabKind::Bone);
}

#[test]
fn encode_labels() {
    assert_eq!(Encode::UTF16LE.to_string(), "UTF-16(LE)");
    assert_eq!(Encode::UTF8.to_string(), "UTF-8");
}

#[test]
fn bone_flags_none_is_all_clear() {
    let f = PMXBoneFlags::none();
    assert!(!f.is_target_is_other_bone);
    assert!(!f.deform_after_physics);
    assert!(!f.allow_rotate);
    assert!(!f.allow_translate);
    assert!(!f.flag1);
}

#[test]
fn bone_flags_decode_bits() {
    let raw = BONE_FLAG_DEFORM_AFTER_PHYSICS_MASK | BONE_FLAG_ALLOW_ROTATE_MASK;
    let f = PMXBoneFlags::from(raw);
    assert!(f.deform_after_physics);
    assert!(f.allow_rotate);
    assert!(!f.allow_translate);
    assert!(!f.is_target_is_other_bone);
    let g = PMXBoneFlags::from(
        BONE_FLAG_TARGET_SHOW_MODE_MASK | BONE_FLAG_ALLOW_TRANSLATE_MASK,
    );
    assert!(g.is_target_is_other_bone);
    assert!(g.allow_translate);
    assert!(!g.deform_after_physics);
}

#[test]
fn bone_view_rebuilds_on_parent_edit() {
    let bones = vec![bone("a", "a", -1), bone("b", "b", 0), bone("c", "c", 1)];
    let mut view = EguiBoneView::new(bones);
    assert_eq!(view.current_displaying_bone, 0);
    assert_eq!(view.tree_pairs(), vec![(0, 0), (1, 1), (2, 2)]);
    // Move bone 1 (and its child 2) to the root.
    view.select(1);
    let mut edited = view.bones[1].clone();
    edited.parent = -1;
    view.commit_bone(edited);
    assert_eq!(view.tree_pairs(), vec![(0, 0), (1, 0), (2, 1)]);
    assert!(view.diagnostics.is_empty());
}

#[test]
fn bone_view_name_edit_keeps_tree() {
    let bones = vec![bone("a", "a", -1), bone("b", "b", 0)];
    let mut view = EguiBoneView::new(bones);
    view.select(1);
    let mut edited = view.bones[1].clone();
    edited.name = "renamed".to_string();
    view.commit_bone(edited);
    assert_eq!(view.bones[1].name, "renamed");
    assert_eq!(view.tree_pairs(), vec![(0, 0), (1, 1)]);
}

#[test]
fn bone_view_surfaces_repair_diagnostics() {
    let bones = vec![bone("a", "a", -1), bone("b", "b", 1)];
    let view = EguiBoneView::new(bones);
    assert_eq!(view.diagnostics.len(), 1);
    assert_eq!(view.diagnostics[0].bone, 1);
}

#[test]
fn info_view_latches_additional_uv_edit() {
    let mut info = PMXInfoView::new(header(), model_info());
    assert_eq!(info.encode, Encode::UTF16LE);
    assert_eq!(info.query_updated_header(), None);
    // Storing the unchanged count does not latch.
    info.set_additional_uv(2);
    assert_eq!(info.query_updated_header(), None);
    // A real change latches until queried, and the query hands the
    // edited header out exactly once.
    info.set_additional_uv(4);
    let updated = info.query_updated_header().unwrap();
    assert_eq!(updated.additional_uv, 4);
    assert_eq!(info.query_updated_header(), None);
}

#[test]
fn info_view_edits_by_language() {
    let mut info = PMXInfoView::new(header(), model_info());
    info.set_model_name("日本語名".to_string());
    assert_eq!(info.model_info.name, "日本語名");
    assert_eq!(info.model_info.name_en, "model-en");
    info.set_lang(Lang::English);
    info.set_model_name("english name".to_string());
    assert_eq!(info.model_info.name_en, "english name");
    assert_eq!(info.model_info.name, "日本語名");
    info.set_model_comment("english comment".to_string());
    assert_eq!(info.model_info.comment_en, "english comment");
    assert_eq!(info.model_info.comment, "c");
}

#[test]
fn vertex_view_normalizes_selected_vertex() {
    let vertices = vec![
        VertexRecord { weight: VertexWeightBinding::BDEF1(1) },
        VertexRecord {
            weight: VertexWeightBinding::BDEF2 {
                bone_index_1: 0,
                bone_index_2: 1,
                bone_weight_1: 250_000,
            },
        },
    ];
    let bones = vec![bone("hip", "hip-en", -1), bone("knee", "knee-en", 0)];
    let mut view = PMXVertexView::new(vertices, header(), bones);
    let first = view.selected_normalized();
    assert_eq!(first.bone_indices, [1, -1, -1, -1]);
    view.select(1);
    let second = view.selected_normalized();
    assert_eq!(second.weights, [250_000, 750_000, 0, 0]);
    assert_eq!(second.bone_indices, [0, 1, -1, -1]);
}

#[test]
fn vertex_view_bone_names_by_language_with_fallback() {
    let vertices = vec![VertexRecord { weight: VertexWeightBinding::BDEF1(0) }];
    let bones = vec![bone("hip", "hip-en", -1)];
    let mut view = PMXVertexView::new(vertices, header(), bones);
    assert_eq!(view.bone_name(0), "hip");
    view.set_lang(Lang::English);
    assert_eq!(view.bone_name(0), "hip-en");
    assert_eq!(view.bone_name(-1), "-");
    assert_eq!(view.bone_name(7), "-");
}

#[test]
fn vertex_view_header_update_changes_uv_bound() {
    let vertices = vec![VertexRecord { weight: VertexWeightBinding::BDEF1(0) }];
    let mut view = PMXVertexView::new(vertices, header(), Vec::new());
    view.set_selected_uv(1);
    assert_eq!(view.selected_uv, 1);
    let new_header = PMXHeader { encode: Encode::UTF8, additional_uv: 4 };
    view.update_header(new_header);
    view.set_selected_uv(3);
    assert_eq!(view.selected_uv, 3);
    assert_eq!(view.header.encode, Encode::UTF8);
}
