//! Record types of the flat model data: bones, header, model information,
//! and the decoded bone-flag bitmask.

use vstd::prelude::*;

verus! {

/// Which of the two display-name variants a view shows.
#[derive(Debug, Copy, Clone, Eq, PartialEq, Structural)]
pub enum Lang {
    English,
    Japanese,
}

/// Character encoding selected in the model header.
#[derive(Debug, Copy, Clone, Eq, PartialEq, Structural)]
pub enum Encode {
    UTF16LE,
    UTF8,
}

impl Encode {
    /// The display label of the encoding.
    pub fn to_string(&self) -> (r: String)
        ensures
            *self == Encode::UTF16LE ==> r@ == "UTF-16(LE)"@,
            *self == Encode::UTF8 ==> r@ == "UTF-8"@,
    {
        match self {
            Encode::UTF16LE => "UTF-16(LE)".to_string(),
            Encode::UTF8 => "UTF-8".to_string(),
        }
    }
}

/// One bone of the flat bone list. Its identity is its position in that
/// list; `parent` refers to another position, with `-1` meaning "no
/// parent" (a root bone).
#[derive(Debug, Clone, PartialEq)]
pub struct BoneRecord {
    pub name: String,
    pub english_name: String,
    pub parent: i32,
    pub deform_depth: i32,
    pub boneflag: u16,
}

/// Bone flag bit `0x0001`: the tail is shown as another bone.
pub const BONE_FLAG_TARGET_SHOW_MODE_MASK: u16 = 0x0001;

/// Bone flag bit `0x0002`: rotation is allowed.
pub const BONE_FLAG_ALLOW_ROTATE_MASK: u16 = 0x0002;

/// Bone flag bit `0x0004`: translation is allowed.
pub const BONE_FLAG_ALLOW_TRANSLATE_MASK: u16 = 0x0004;

/// Bone flag bit `0x1000`: the bone deforms after physics.
pub const BONE_FLAG_DEFORM_AFTER_PHYSICS_MASK: u16 = 0x1000;

/// The decoded form of the `boneflag` bitmask of a [`BoneRecord`].
#[derive(Debug, Clone, Copy, PartialEq, Eq, Structural)]
pub struct PMXBoneFlags {
    pub is_target_is_other_bone: bool,
    pub deform_after_physics: bool,
    pub allow_rotate: bool,
    pub allow_translate: bool,
    pub flag1: bool,
}

impl PMXBoneFlags {
    /// The flag set with every flag cleared.
    pub fn none() -> (r: Self)
        ensures
            r == (PMXBoneFlags {
                is_target_is_other_bone: false,
                deform_after_physics: false,
                allow_rotate: false,
                allow_translate: false,
                flag1: false,
            }),
    {
        Self {
            is_target_is_other_bone: false,
            deform_after_physics: false,
            allow_rotate: false,
            allow_translate: false,
            flag1: false,
        }
    }
}

/// The flag set decoded from a raw bitmask: each field reflects whether
/// its bit is set; `flag1` has no assigned bit and stays cleared.
pub open spec fn spec_flags_of_bits(raw: u16) -> PMXBoneFlags {
    PMXBoneFlags {
        is_target_is_other_bone: raw & BONE_FLAG_TARGET_SHOW_MODE_MASK
            == BONE_FLAG_TARGET_SHOW_MODE_MASK,
        deform_after_physics: raw & BONE_FLAG_DEFORM_AFTER_PHYSICS_MASK
            == BONE_FLAG_DEFORM_AFTER_PHYSICS_MASK,
        allow_rotate: raw & BONE_FLAG_ALLOW_ROTATE_MASK == BONE_FLAG_ALLOW_ROTATE_MASK,
        allow_translate: raw & BONE_FLAG_ALLOW_TRANSLATE_MASK == BONE_FLAG_ALLOW_TRANSLATE_MASK,
        flag1: false,
    }
}

impl From<u16> for PMXBoneFlags {
    /// Decode a raw bone-flag bitmask.
    fn from(raw_bone_flag: u16) -> (r: Self) {
        let mut bone_flag = Self::none();
        if raw_bone_flag & BONE_FLAG_DEFORM_AFTER_PHYSICS_MASK
            == BONE_FLAG_DEFORM_AFTER_PHYSICS_MASK {
            bone_flag.deform_after_physics = true;
        }
        if raw_bone_flag & BONE_FLAG_TARGET_SHOW_MODE_MASK == BONE_FLAG_TARGET_SHOW_MODE_MASK {
            bone_flag.is_target_is_other_bone = true;
        }
        if raw_bone_flag & BONE_FLAG_ALLOW_ROTATE_MASK == BONE_FLAG_ALLOW_ROTATE_MASK {
            bone_flag.allow_rotate = true;
        }
        if raw_bone_flag & BONE_FLAG_ALLOW_TRANSLATE_MASK == BONE_FLAG_ALLOW_TRANSLATE_MASK {
            bone_flag.allow_translate = true;
        }
        bone_flag
    }
}

impl vstd::std_specs::convert::FromSpecImpl<u16> for PMXBoneFlags {
    open spec fn obeys_from_spec() -> bool {
        true
    }

    open spec fn from_spec(raw_bone_flag: u16) -> Self {
        spec_flags_of_bits(raw_bone_flag)
    }
}

/// The part of the model header that the core reads and edits: the
/// character encoding and the number of additional UV channels.
#[derive(Debug, Clone, Copy, PartialEq)]
pub struct PMXHeader {
    pub encode: Encode,
    pub additional_uv: u8,
}

/// Names and comments of the model, in both language variants.
#[derive(Debug, Clone, PartialEq)]
pub struct PMXModelInfo {
    pub name: String,
    pub name_en: String,
    pub comment: String,
    pub comment_en: String,
}

} // verus!
