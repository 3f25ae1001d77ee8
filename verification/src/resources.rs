//! The resources of a project, as far as the compiler reads them.

use vstd::prelude::*;

verus! {

/// The number of the first function of an extension.
pub const EXTENSION_FUNCTION_ID_START: i32 = 1;

/// The number of the first instance in a room.
pub const ROOM_INSTANCE_ID_START: i32 = 100_000;

/// The number of the first tile in a room.
pub const ROOM_TILE_ID_START: i32 = 10_000_000;

/// The number of no object.
pub const OBJECT_UNDEFINED: i32 = -100;

/// One argument of an action.
#[derive(Debug, Clone, PartialEq, Eq)]
pub struct ActionArgument {
    pub kind: i32,
    pub value_kind: String,
    pub value: String,
}

/// An [`ActionArgument`] with its texts as sequences of characters.
pub struct ArgumentView {
    pub kind: i32,
    pub value_kind: Seq<char>,
    pub value: Seq<char>,
}

impl View for ActionArgument {
    type V = ArgumentView;

    open spec fn view(&self) -> ArgumentView {
        ArgumentView {
            kind: self.kind,
            value_kind: self.value_kind@,
            value: self.value@,
        }
    }
}

/// A drag-and-drop action.
#[derive(Debug, Clone, PartialEq, Eq)]
pub struct Action {
    pub library_id: i32,
    pub id: i32,
    pub kind: i32,
    pub use_relative: bool,
    pub is_question: bool,
    pub use_apply_to: bool,
    pub execution_type: i32,
    pub function_name: String,
    pub code: String,
    pub who_name: String,
    pub who: i32,
    pub relative: bool,
    pub is_not: bool,
    pub arguments: Vec<ActionArgument>,
}

/// An [`Action`] with its texts as sequences of characters.
pub struct ActionView {
    pub library_id: i32,
    pub id: i32,
    pub kind: i32,
    pub use_relative: bool,
    pub is_question: bool,
    pub use_apply_to: bool,
    pub execution_type: i32,
    pub function_name: Seq<char>,
    pub code: Seq<char>,
    pub who_name: Seq<char>,
    pub who: i32,
    pub relative: bool,
    pub is_not: bool,
    pub arguments: Seq<ArgumentView>,
}

impl View for Action {
    type V = ActionView;

    open spec fn view(&self) -> ActionView {
        ActionView {
            library_id: self.library_id,
            id: self.id,
            kind: self.kind,
            use_relative: self.use_relative,
            is_question: self.is_question,
            use_apply_to: self.use_apply_to,
            execution_type: self.execution_type,
            function_name: self.function_name@,
            code: self.code@,
            who_name: self.who_name@,
            who: self.who,
            relative: self.relative,
            is_not: self.is_not,
            arguments: self.arguments@.map_values(|argument: ActionArgument| argument@),
        }
    }
}

/// What a list of actions stands for.
pub open spec fn action_views(actions: Seq<Action>) -> Seq<ActionView> {
    actions.map_values(|action: Action| action@)
}

/// A script of the project.
#[derive(Debug, Clone, PartialEq, Eq)]
pub struct Script {
    pub index: usize,
    pub manifest_index: usize,
    pub name: String,
    pub source: String,
    pub source_name: String,
    pub code: String,
}

/// An event of an object with its actions.
#[derive(Debug, Clone, PartialEq, Eq)]
pub struct ObjectEvent {
    pub event_type: usize,
    pub subtype: i32,
    pub subtype_name: Option<String>,
    pub actions: Vec<Action>,
}

/// An object of the project. Its events are grouped by their type.
#[derive(Debug, Clone, PartialEq, Eq)]
pub struct GameObject {
    pub index: usize,
    pub name: String,
    pub source: String,
    pub sprite_name: String,
    pub sprite_index: i32,
    pub mask_name: String,
    pub mask_index: i32,
    pub parent_name: String,
    pub parent_index: i32,
    pub visible: bool,
    pub solid: bool,
    pub depth: i32,
    pub persistent: bool,
    pub physics: Physics,
    pub events: Vec<Vec<ObjectEvent>>,
}

/// A corner of the shape of an object, with the bits of its coordinates.
#[derive(Debug, Clone, Copy, PartialEq, Eq, Structural)]
pub struct PhysicsShapePoint {
    pub x: u32,
    pub y: u32,
}

/// What the physics engine knows of an object. Real numbers are held as the
/// bits of single precision numbers.
#[derive(Debug, Clone, PartialEq, Eq)]
pub struct Physics {
    pub object: bool,
    pub sensor: bool,
    pub shape: i32,
    pub density: u32,
    pub restitution: u32,
    pub group: i32,
    pub linear_damping: u32,
    pub angular_damping: u32,
    pub friction: u32,
    pub awake: bool,
    pub kinematic: bool,
    pub shape_points: Vec<PhysicsShapePoint>,
}

/// The actions of a step of a timeline.
#[derive(Debug, Clone, PartialEq, Eq)]
pub struct TimelineEntry {
    pub step: i32,
    pub actions: Vec<Action>,
}

/// A timeline of the project.
#[derive(Debug, Clone, PartialEq, Eq)]
pub struct Timeline {
    pub index: usize,
    pub name: String,
    pub source: String,
    pub entries: Vec<TimelineEntry>,
}

/// A background of a room.
#[derive(Debug, Clone, PartialEq, Eq)]
pub struct RoomBackground {
    pub background_name: String,
    pub background_index: i32,
    pub visible: bool,
    pub foreground: bool,
    pub x: i32,
    pub y: i32,
    pub horizontal_tile: bool,
    pub vertical_tile: bool,
    pub horizontal_speed: i32,
    pub vertical_speed: i32,
    pub stretch: bool,
}

/// A view of a room.
#[derive(Debug, Clone, PartialEq, Eq)]
pub struct RoomView {
    pub object_name: String,
    pub object_index: i32,
    pub visible: bool,
    pub x_view: i32,
    pub y_view: i32,
    pub width_view: i32,
    pub height_view: i32,
    pub x_port: i32,
    pub y_port: i32,
    pub width_port: i32,
    pub height_port: i32,
    pub horizontal_border: i32,
    pub vertical_border: i32,
    pub horizontal_speed: i32,
    pub vertical_speed: i32,
}

/// An instance in a room. Its scales and its rotation are held as the bits of
/// single precision numbers.
#[derive(Debug, Clone, PartialEq, Eq)]
pub struct RoomInstance {
    pub name: String,
    pub object_name: String,
    pub object_index: i32,
    pub id: i32,
    pub code: String,
    pub x: i32,
    pub y: i32,
    pub scale_x: u32,
    pub scale_y: u32,
    pub wad_color: u32,
    pub rotation: u32,
}

/// A tile of a room. Its scales are held as the bits of single precision
/// numbers, and its opacity is a number of 255ths.
#[derive(Debug, Clone, PartialEq, Eq)]
pub struct RoomTile {
    pub background_name: String,
    pub background_index: i32,
    pub id: i32,
    pub x: i32,
    pub y: i32,
    pub source_x: i32,
    pub source_y: i32,
    pub width: i32,
    pub height: i32,
    pub depth: i32,
    pub scale_x: u32,
    pub scale_y: u32,
    pub alpha: i32,
    pub blend: i32,
}

/// The physics world of a room. Real numbers are held as the bits of single
/// precision numbers.
#[derive(Debug, Clone, Copy, PartialEq, Eq, Structural)]
pub struct PhysicsWorld {
    pub enabled: bool,
    pub top: i32,
    pub left: i32,
    pub right: i32,
    pub bottom: i32,
    pub gravity_x: u32,
    pub gravity_y: u32,
    pub pixels_to_meters: u32,
}

/// A room of the project.
#[derive(Debug, Clone, PartialEq, Eq)]
pub struct Room {
    pub index: usize,
    pub name: String,
    pub source: String,
    pub caption: String,
    pub width: i32,
    pub height: i32,
    pub speed: i32,
    pub persistent: bool,
    pub color: i32,
    pub show_color: bool,
    pub enable_views: bool,
    pub clear_view_background: bool,
    pub clear_display_buffer: bool,
    pub physics_world: PhysicsWorld,
    pub code: String,
    pub backgrounds: Vec<RoomBackground>,
    pub views: Vec<RoomView>,
    pub instances: Vec<RoomInstance>,
    pub tiles: Vec<RoomTile>,
}

/// A function of an extension file.
#[derive(Debug, Clone, PartialEq, Eq)]
pub struct ExtensionFunction {
    pub name: String,
    pub external_name: String,
    pub id: i32,
    pub kind: i32,
    pub return_type: i32,
    pub arguments: Vec<i32>,
}

/// A constant of an extension file.
#[derive(Debug, Clone, PartialEq, Eq)]
pub struct ExtensionConstant {
    pub name: String,
    pub value: String,
}

/// A file of an extension. It is enabled if the configuration and the target
/// that are built want it, and used if the project calls one of its functions.
#[derive(Debug, Clone, PartialEq, Eq)]
pub struct ExtensionFile {
    pub filename: String,
    pub source: String,
    pub target_filename: String,
    pub target_filenames: Vec<String>,
    pub kind: i32,
    pub init: String,
    pub finalizer: String,
    pub functions: Vec<ExtensionFunction>,
    pub constants: Vec<ExtensionConstant>,
    pub uncompress: bool,
    pub enabled: bool,
    pub used: bool,
}

/// An extension of the project, which is enabled and used as its files are.
#[derive(Debug, Clone, PartialEq, Eq)]
pub struct Extension {
    pub name: String,
    pub source: String,
    pub folder: String,
    pub product_id: String,
    pub class_name: String,
    pub files: Vec<ExtensionFile>,
    pub enabled: bool,
    pub used: bool,
}

/// A file that the build copies or converts, with its contents.
#[derive(Debug, Clone, PartialEq, Eq)]
pub struct BinaryFile {
    pub source: String,
    pub data: Vec<u8>,
}

/// A frame of a sprite.
#[derive(Debug, Clone, PartialEq, Eq)]
pub struct SpriteFrame {
    pub index: usize,
    pub source: String,
}

/// What a sprite is made of.
#[derive(Debug, Clone, Copy, PartialEq, Eq, Structural)]
pub enum SpriteType {
    Bitmap,
    Swf,
    Spine,
}

/// How collisions with a sprite are found.
#[derive(Debug, Clone, Copy, PartialEq, Eq, Structural)]
pub enum CollisionType {
    AxisAlignedRectangle,
    Precise,
    RotatedRectangle,
}

/// A sprite of the project.
#[derive(Debug, Clone, PartialEq, Eq)]
pub struct Sprite {
    pub index: usize,
    pub name: String,
    pub source: String,
    pub sprite_type: SpriteType,
    pub width: i32,
    pub height: i32,
    pub x_origin: i32,
    pub y_origin: i32,
    pub collision_kind: i32,
    pub collision_type: CollisionType,
    pub collision_tolerance: i32,
    pub separate_masks: bool,
    pub bounding_box_mode: i32,
    pub bounding_box_left: i32,
    pub bounding_box_right: i32,
    pub bounding_box_top: i32,
    pub bounding_box_bottom: i32,
    pub frames: Vec<SpriteFrame>,
    pub swf_source: Option<String>,
    pub spine_source: Option<String>,
}

/// A sound of the project. Its volume and its pan are held as the bits of
/// single precision numbers.
#[derive(Debug, Clone, PartialEq, Eq)]
pub struct Sound {
    pub index: usize,
    pub name: String,
    pub source: String,
    pub audio_source: String,
    pub original_name: String,
    pub extension: String,
    pub effects: i32,
    pub volume: u32,
    pub pan: u32,
    pub preload: bool,
    pub new_audio: bool,
    pub streamed: bool,
    pub compressed: bool,
    pub uncompress_on_load: bool,
    pub stereo: bool,
    pub bit_rate: i32,
    pub sample_rate: i32,
    pub bit_depth: i32,
    pub group_index: i32,
}

/// A background of the project.
#[derive(Debug, Clone, PartialEq, Eq)]
pub struct Background {
    pub index: usize,
    pub name: String,
    pub source: String,
    pub image_source: String,
}

/// A point of a path, with the bits of its single precision numbers.
#[derive(Debug, Clone, Copy, PartialEq, Eq, Structural)]
pub struct PathPoint {
    pub x: u32,
    pub y: u32,
    pub speed: u32,
}

/// A path of the project.
#[derive(Debug, Clone, PartialEq, Eq)]
pub struct GamePath {
    pub index: usize,
    pub name: String,
    pub source: String,
    pub kind: i32,
    pub closed: bool,
    pub precision: i32,
    pub points: Vec<PathPoint>,
}

/// How far a glyph is moved before another one.
#[derive(Debug, Clone, Copy, PartialEq, Eq, Structural)]
pub struct KerningPair {
    pub other: i32,
    pub amount: i32,
}

/// A glyph of a font.
#[derive(Debug, Clone, PartialEq, Eq)]
pub struct Glyph {
    pub character: i32,
    pub x: i32,
    pub y: i32,
    pub width: i32,
    pub height: i32,
    pub shift: i32,
    pub offset: i32,
    pub kerning: Vec<KerningPair>,
}

/// A font of the project. Its scales are held as the bits of single precision
/// numbers.
#[derive(Debug, Clone, PartialEq, Eq)]
pub struct Font {
    pub index: usize,
    pub name: String,
    pub source: String,
    pub image_source: String,
    pub font_name: String,
    pub size: i32,
    pub bold: bool,
    pub italic: bool,
    pub first: i32,
    pub last: i32,
    pub charset: i32,
    pub anti_alias: i32,
    pub scale_x: u32,
    pub scale_y: u32,
    pub glyphs: Vec<Glyph>,
}

/// A group of sounds. An implicit one is not listed in the project.
#[derive(Debug, Clone, PartialEq, Eq)]
pub struct AudioGroup {
    pub index: usize,
    pub name: String,
    pub target_mask: i64,
    pub implicit: bool,
}

} // verus!
