//! What a project and its configuration settle for the compiler.

use vstd::prelude::*;

use crate::resources::AudioGroup;

verus! {

/// The mask of the target that is built unless another one is wanted.
pub const DEFAULT_TARGET_MASK: i64 = 64;

/// Where a constant was defined.
#[derive(Debug, Clone, Copy, PartialEq, Eq, Structural)]
pub enum ConstantSource {
    Project,
    Config,
    Extension,
}

/// A constant of the project, the configuration or an extension.
#[derive(Debug, Clone, PartialEq, Eq)]
pub struct CompileConstant {
    pub name: String,
    pub value: String,
    pub source: ConstantSource,
}

/// The options of the configuration that are written to the data file.
#[derive(Debug, Clone, PartialEq, Eq)]
pub struct CompileOptions {
    pub config: String,
    pub game_id: i32,
    pub display_name: String,
    pub active_targets: i64,
    pub gen8_flags: u32,
    pub optn_flags: u64,
    pub scale: i32,
    pub window_color: i32,
    pub color_depth: i32,
    pub resolution: i32,
    pub frequency: i32,
    pub sync_vertex: i32,
    pub priority: i32,
    pub load_alpha: i32,
    pub sleep_margin: i32,
    pub draw_color: i32,
}

/// All that a project and its configuration settle.
#[derive(Debug, Clone, PartialEq, Eq)]
pub struct CompileSettings {
    pub options: CompileOptions,
    pub audio_groups: Vec<AudioGroup>,
    pub constants: Vec<CompileConstant>,
    pub target_mask: i64,
}

} // verus!
