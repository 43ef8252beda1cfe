//! The view-state types the hosting user interface drives: tab
//! selection, the bone panel with its derived tree, the header panel
//! with its edit latch, and the vertex panel.
//!
//! Widget layout and event handling live outside the crate; these types
//! hold the data each panel shows and the state transitions its edits
//! cause, so that the flat arrays, the derived tree and the edit
//! signals stay consistent.

use crate::hierarchy::{
    build, pairs_of, spec_build_tree, spec_diagnostics, spec_traverse, traverse, BoneTree,
    Diagnostic,
};
use crate::hierarchy::{lemma_build_tree_height, lemma_same_parents};
use crate::model::{BoneRecord, Encode, Lang, PMXHeader, PMXModelInfo};
use crate::weights::{
    normalize, spec_kind_of, spec_normalized_indices, spec_normalized_weights, NormalizedWeight,
    VertexWeightBinding, WeightKind,
};
use vstd::prelude::*;

verus! {

/// The panels the interface can show.
#[derive(Debug, Copy, Clone, Eq, PartialEq, Structural)]
pub enum TabKind {
    Info,
    Vertex,
    Face,
    Material,
    Bone,
    Morph,
    Frame,
    RigidBody,
    Joint,
    SoftBody,
    View,
    TextureView,
    Shader,
}

/// The currently selected panel.
pub struct Tabs(pub TabKind);

impl Tabs {
    /// The panel currently selected.
    pub fn get_current_tab(&self) -> (r: TabKind)
        ensures
            r == self.0,
    {
        self.0
    }
}

/// The bone panel: the flat bone list, the bone the panel shows, the
/// tree derived from the list, and the repair diagnostics of the last
/// rebuild.
pub struct EguiBoneView {
    pub bones: Vec<BoneRecord>,
    pub current_displaying_bone: i32,
    pub bone_tree: BoneTree,
    pub diagnostics: Vec<Diagnostic>,
    pub lang: Lang,
}

impl EguiBoneView {
    /// The panel's invariant: the tree and the diagnostics are exactly
    /// what a rebuild over the current bone list yields.
    pub open spec fn wf(&self) -> bool {
        &&& self.bones@.len() <= i32::MAX as int
        &&& self.bone_tree@ == spec_build_tree(self.bones@)
        &&& self.diagnostics@ == spec_diagnostics(self.bones@)
    }

    /// Take over a bone list and derive its tree.
    pub fn new(bones: Vec<BoneRecord>) -> (r: Self)
        requires
            bones@.len() <= i32::MAX as int,
        ensures
            r.wf(),
            r.bones@ == bones@,
            r.current_displaying_bone == 0,
            r.lang == Lang::Japanese,
    {
        let (tree, diagnostics) = build(&bones);
        Self {
            bones,
            current_displaying_bone: 0,
            bone_tree: tree,
            diagnostics,
            lang: Lang::Japanese,
        }
    }

    /// Show bone `id` in the parameter pane.
    pub fn select(&mut self, id: i32)
        ensures
            *final(self) == (EguiBoneView { current_displaying_bone: id, ..*old(self) }),
    {
        self.current_displaying_bone = id;
    }

    /// Switch the display-name language.
    pub fn set_lang(&mut self, lang: Lang)
        ensures
            *final(self) == (EguiBoneView { lang, ..*old(self) }),
    {
        self.lang = lang;
    }

    /// Write an edited record back over the bone the panel shows, and
    /// rebuild the tree when the edit moved the bone's parent
    /// reference; a name or flag edit leaves the derived tree as it
    /// stands, which the invariant shows to be already correct.
    pub fn commit_bone(&mut self, record: BoneRecord)
        requires
            old(self).wf(),
            0 <= old(self).current_displaying_bone,
            (old(self).current_displaying_bone as int) < old(self).bones@.len(),
        ensures
            final(self).wf(),
            final(self).bones@ == old(self).bones@.update(
                old(self).current_displaying_bone as int,
                record,
            ),
            final(self).current_displaying_bone == old(self).current_displaying_bone,
            final(self).lang == old(self).lang,
    {
        let cur = self.current_displaying_bone as usize;
        let parent_changed = self.bones[cur].parent != record.parent;
        self.bones[cur] = record;
        if parent_changed {
            let (tree, diagnostics) = build(&self.bones);
            self.bone_tree = tree;
            self.diagnostics = diagnostics;
        } else {
            proof {
                assert forall|i: int|
                    0 <= i < old(self).bones@.len() implies #[trigger] old(
                    self,
                ).bones@[i].parent == self.bones@[i].parent by {
                }
                lemma_same_parents(old(self).bones@, self.bones@);
            }
        }
    }

    /// The depth-first (identity, depth) listing of the derived tree,
    /// the virtual root's direct children at depth zero.
    pub fn tree_pairs(&self) -> (r: Vec<(i32, usize)>)
        requires
            self.wf(),
        ensures
            pairs_of(r@) == spec_traverse(spec_build_tree(self.bones@)),
    {
        proof {
            lemma_build_tree_height(self.bones@);
        }
        traverse(&self.bone_tree)
    }
}

/// The header panel: the header and model information under edit, the
/// displayed encoding, and a latch remembering an additional-UV edit
/// that the vertex panel has not seen yet.
pub struct PMXInfoView {
    pub header: PMXHeader,
    pub model_info: PMXModelInfo,
    pub encode: Encode,
    pub lang: Lang,
    pub additional_uvs_changed: bool,
}

impl PMXInfoView {
    /// Take over a header and model information; the displayed
    /// encoding starts as the header's.
    pub fn new(header: PMXHeader, model_info: PMXModelInfo) -> (r: Self)
        ensures
            r.header == header,
            r.model_info == model_info,
            r.encode == header.encode,
            r.lang == Lang::Japanese,
            !r.additional_uvs_changed,
    {
        let encode = header.encode;
        Self { header, model_info, encode, lang: Lang::Japanese, additional_uvs_changed: false }
    }

    /// Select the displayed character encoding.
    pub fn set_encode(&mut self, encode: Encode)
        ensures
            *final(self) == (PMXInfoView { encode, ..*old(self) }),
    {
        self.encode = encode;
    }

    /// Switch the display-name language.
    pub fn set_lang(&mut self, lang: Lang)
        ensures
            *final(self) == (PMXInfoView { lang, ..*old(self) }),
    {
        self.lang = lang;
    }

    /// Store an edited additional-UV count; the latch is set exactly
    /// when some edit actually changed the count since the last query.
    pub fn set_additional_uv(&mut self, count: u8)
        ensures
            final(self).header.additional_uv == count,
            final(self).header.encode == old(self).header.encode,
            final(self).additional_uvs_changed == (old(self).additional_uvs_changed || count
                != old(self).header.additional_uv),
            final(self).model_info == old(self).model_info,
            final(self).encode == old(self).encode,
            final(self).lang == old(self).lang,
    {
        if count != self.header.additional_uv {
            self.additional_uvs_changed = true;
        }
        self.header.additional_uv = count;
    }

    /// Write the model name shown under the current language.
    pub fn set_model_name(&mut self, name: String)
        ensures
            old(self).lang == Lang::Japanese ==> final(self).model_info == (PMXModelInfo {
                name,
                ..old(self).model_info
            }),
            old(self).lang == Lang::English ==> final(self).model_info == (PMXModelInfo {
                name_en: name,
                ..old(self).model_info
            }),
            final(self).header == old(self).header,
            final(self).encode == old(self).encode,
            final(self).lang == old(self).lang,
            final(self).additional_uvs_changed == old(self).additional_uvs_changed,
    {
        match self.lang {
            Lang::Japanese => {
                self.model_info.name = name;
            },
            Lang::English => {
                self.model_info.name_en = name;
            },
        }
    }

    /// Write the model comment shown under the current language.
    pub fn set_model_comment(&mut self, comment: String)
        ensures
            old(self).lang == Lang::Japanese ==> final(self).model_info == (PMXModelInfo {
                comment,
                ..old(self).model_info
            }),
            old(self).lang == Lang::English ==> final(self).model_info == (PMXModelInfo {
                comment_en: comment,
                ..old(self).model_info
            }),
            final(self).header == old(self).header,
            final(self).encode == old(self).encode,
            final(self).lang == old(self).lang,
            final(self).additional_uvs_changed == old(self).additional_uvs_changed,
    {
        match self.lang {
            Lang::Japanese => {
                self.model_info.comment = comment;
            },
            Lang::English => {
                self.model_info.comment_en = comment;
            },
        }
    }

    /// Hand out the edited header once per edit: the header when the
    /// latch is set, clearing it; nothing when no edit is pending.
    pub fn query_updated_header(&mut self) -> (r: Option<PMXHeader>)
        ensures
            old(self).additional_uvs_changed ==> r == Some(old(self).header)
                && !final(self).additional_uvs_changed,
            !old(self).additional_uvs_changed ==> r == None::<PMXHeader>,
            final(self).header == old(self).header,
            final(self).model_info == old(self).model_info,
            final(self).encode == old(self).encode,
            final(self).lang == old(self).lang,
            !old(self).additional_uvs_changed ==> final(self).additional_uvs_changed == old(
                self,
            ).additional_uvs_changed,
    {
        if self.additional_uvs_changed {
            self.additional_uvs_changed = false;
            Some(self.header.clone())
        } else {
            None
        }
    }
}

/// One vertex of the flat vertex list, as far as the core reads it:
/// its skinning-weight binding.
#[derive(Debug, Clone, Copy, PartialEq)]
pub struct VertexRecord {
    pub weight: VertexWeightBinding,
}

/// The vertex panel: the flat vertex list, the selected vertex, the
/// bones its weights refer to, and the panel's display state.
pub struct PMXVertexView {
    pub vertices: Vec<VertexRecord>,
    pub selected: usize,
    pub display_sdef_parameter: bool,
    pub update_vertices: bool,
    pub header: PMXHeader,
    pub bones: Vec<BoneRecord>,
    pub selected_uv: u8,
    pub lang: Lang,
}

impl PMXVertexView {
    /// Take over the vertex list, the header and the bone list.
    pub fn new(vertices: Vec<VertexRecord>, header: PMXHeader, bones: Vec<BoneRecord>) -> (r:
        Self)
        ensures
            r.vertices@ == vertices@,
            r.selected == 0,
            !r.display_sdef_parameter,
            r.update_vertices,
            r.header == header,
            r.bones@ == bones@,
            r.selected_uv == 0,
            r.lang == Lang::Japanese,
    {
        Self {
            vertices,
            selected: 0,
            display_sdef_parameter: false,
            update_vertices: true,
            header,
            bones,
            selected_uv: 0,
            lang: Lang::Japanese,
        }
    }

    /// Replace the header after the info panel edited it.
    pub fn update_header(&mut self, header: PMXHeader)
        ensures
            *final(self) == (PMXVertexView { header, ..*old(self) }),
    {
        self.header = header;
    }

    /// Replace the bone list after the bone panel edited it.
    pub fn update_bone(&mut self, bones: Vec<BoneRecord>)
        ensures
            final(self).bones@ == bones@,
            final(self).vertices == old(self).vertices,
            final(self).selected == old(self).selected,
            final(self).display_sdef_parameter == old(self).display_sdef_parameter,
            final(self).update_vertices == old(self).update_vertices,
            final(self).header == old(self).header,
            final(self).selected_uv == old(self).selected_uv,
            final(self).lang == old(self).lang,
    {
        self.bones = bones;
    }

    /// Show vertex `index`.
    pub fn select(&mut self, index: usize)
        requires
            index < old(self).vertices@.len(),
        ensures
            *final(self) == (PMXVertexView { selected: index, ..*old(self) }),
    {
        self.selected = index;
    }

    /// Switch the display-name language.
    pub fn set_lang(&mut self, lang: Lang)
        ensures
            *final(self) == (PMXVertexView { lang, ..*old(self) }),
    {
        self.lang = lang;
    }

    /// Select which additional-UV channel the panel shows.
    pub fn set_selected_uv(&mut self, channel: u8)
        requires
            channel < old(self).header.additional_uv,
        ensures
            *final(self) == (PMXVertexView { selected_uv: channel, ..*old(self) }),
    {
        self.selected_uv = channel;
    }

    /// The deform kind of the selected vertex's binding.
    pub fn selected_kind(&self) -> (r: WeightKind)
        requires
            self.selected < self.vertices@.len(),
        ensures
            r == spec_kind_of(self.vertices@[self.selected as int].weight),
    {
        WeightKind::from(self.vertices[self.selected].weight)
    }

    /// The uniform four-slot projection of the selected vertex's
    /// binding.
    pub fn selected_normalized(&self) -> (r: NormalizedWeight)
        requires
            self.selected < self.vertices@.len(),
        ensures
            r.weights@ == spec_normalized_weights(self.vertices@[self.selected as int].weight),
            r.bone_indices@ == spec_normalized_indices(
                self.vertices@[self.selected as int].weight,
            ),
    {
        normalize(&self.vertices[self.selected].weight)
    }

    /// The display name of the bone a weight slot refers to, under the
    /// current language; `"-"` where the slot holds no usable bone
    /// reference.
    pub fn bone_name(&self, index: i32) -> (r: &str)
        ensures
            (index < 0 || self.bones@.len() <= index as int) ==> r@ == "-"@,
            (0 <= index as int && (index as int) < self.bones@.len()) ==> r@ == (match self.lang {
                Lang::English => self.bones@[index as int].english_name@,
                Lang::Japanese => self.bones@[index as int].name@,
            }),
    {
        if index < 0 {
            "-"
        } else {
            let idx = index as usize;
            if idx >= self.bones.len() {
                "-"
            } else {
                match self.lang {
                    Lang::English => self.bones[idx].english_name.as_str(),
                    Lang::Japanese => self.bones[idx].name.as_str(),
                }
            }
        }
    }
}

} // verus!
