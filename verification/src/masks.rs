//! The collision masks of sprites: one bit for each pixel, the first pixel in
//! the most significant bit.

use vstd::prelude::*;

use crate::assets::Assets;
use crate::bytes::copy_bytes;
use crate::resources::Sprite;
use crate::wad::{invalid, overflow, WriteError, WriteFault};

verus! {

/// How opaque the pixels of a frame are.
#[derive(Debug, Clone, PartialEq, Eq)]
pub struct AlphaFrame {
    pub width: i32,
    pub height: i32,
    pub alpha: Vec<u8>,
}

/// An [`AlphaFrame`] as a sequence.
pub struct FrameView {
    pub width: i32,
    pub height: i32,
    pub alpha: Seq<u8>,
}

impl View for AlphaFrame {
    type V = FrameView;

    open spec fn view(&self) -> FrameView {
        FrameView { width: self.width, height: self.height, alpha: self.alpha@ }
    }
}

/// What a list of frames stands for.
pub open spec fn frame_views(frames: Seq<AlphaFrame>) -> Seq<FrameView> {
    frames.map_values(|frame: AlphaFrame| frame@)
}

/// The width, the height and the colours of the picture that the `image` crate
/// decodes, four bytes for each pixel.
pub uninterp spec fn decoded_png(data: Seq<u8>) -> Result<(u32, u32, Seq<u8>), Seq<char>>;

/// `load_from_memory_with_format` and `DynamicImage::into_rgba8` of the `image`
/// crate: the picture in a PNG file, which is a function of its bytes.
#[verifier::external_body]
fn decode_png(data: &[u8]) -> (result: Result<(u32, u32, Vec<u8>), String>)
    ensures
        match result {
            Ok(picture) => decoded_png(data@) == Ok::<(u32, u32, Seq<u8>), Seq<char>>(
                (picture.0, picture.1, picture.2@),
            ),
            Err(message) => decoded_png(data@) == Err::<(u32, u32, Seq<u8>), Seq<char>>(message@),
        },
{
    match image::load_from_memory_with_format(data, image::ImageFormat::Png) {
        Ok(picture) => {
            let picture = picture.into_rgba8();
            Ok((picture.width(), picture.height(), picture.into_raw()))
        },
        Err(error) => Err(error.to_string()),
    }
}

/// How opaque the pixels of a picture are: every fourth byte.
pub open spec fn opacities(width: int, height: int, colors: Seq<u8>) -> Seq<u8> {
    let pixels = colors.len() / 4;
    let count = if width * height < pixels {
        width * height
    } else {
        pixels as int
    };
    Seq::new(count as nat, |k: int| colors[4 * k + 3])
}

/// The frame of a decoded picture.
pub open spec fn frame_of(width: u32, height: u32, colors: Seq<u8>) -> Result<
    FrameView,
    WriteFault,
> {
    if width > i32::MAX {
        Err(overflow("sprite frame width"@, width as int))
    } else if height > i32::MAX {
        Err(overflow("sprite frame height"@, height as int))
    } else {
        Ok(
            FrameView {
                width: width as i32,
                height: height as i32,
                alpha: opacities(width as int, height as int, colors),
            },
        )
    }
}

/// The frame with a source in a project.
pub open spec fn loaded_frame(assets: Assets, source: Seq<char>) -> Result<FrameView, WriteFault> {
    match assets.contents(source) {
        None => Err(invalid("sprite frame "@ + source + " was not loaded"@)),
        Some(data) => match decoded_png(data) {
            Err(message) => Err(invalid(source + ": "@ + message)),
            Ok((width, height, colors)) => frame_of(width, height, colors),
        },
    }
}

/// Whether a result is a frame, or what is wrong with it.
pub open spec fn is_frame(
    result: Result<AlphaFrame, WriteError>,
    expected: Result<FrameView, WriteFault>,
) -> bool {
    match result {
        Ok(frame) => expected == Ok::<FrameView, WriteFault>(frame@),
        Err(error) => expected == Err::<FrameView, WriteFault>(error@),
    }
}

/// Returns the frame of a decoded picture.
pub fn alpha_frame(width: u32, height: u32, colors: &[u8]) -> (result: Result<
    AlphaFrame,
    WriteError,
>)
    ensures
        is_frame(result, frame_of(width, height, colors@)),
{
    if width > i32::MAX as u32 {
        return Err(
            WriteError::SizeOverflow {
                field: "sprite frame width".to_owned(),
                size: width as u64,
            },
        );
    }
    if height > i32::MAX as u32 {
        return Err(
            WriteError::SizeOverflow {
                field: "sprite frame height".to_owned(),
                size: height as u64,
            },
        );
    }
    let total = colors.len();
    let pixels = total / 4;
    assert(0 <= width * height <= 0x7fff_ffff * 0x7fff_ffff) by (nonlinear_arith)
        requires
            0 <= width <= 0x7fff_ffff,
            0 <= height <= 0x7fff_ffff,
    ;
    let area = width as u64 * height as u64;
    let count: usize = if area < pixels as u64 {
        area as usize
    } else {
        pixels
    };
    let mut alpha: Vec<u8> = Vec::new();
    let mut index: usize = 0;
    while index < count
        invariant
            index <= count,
            total == colors@.len(),
            count <= total / 4,
            alpha@.len() == index,
            forall|k: int| 0 <= k < index ==> (#[trigger] alpha@[k]) == colors@[4 * k + 3],
        decreases count - index,
    {
        alpha.push(colors[4 * index + 3]);
        index += 1;
    }
    assert(alpha@ =~= opacities(width as int, height as int, colors@));
    Ok(AlphaFrame { width: width as i32, height: height as i32, alpha })
}

/// Returns the frame with a source in a project.
pub fn decode_alpha_frame(assets: &Assets, source: &str) -> (result: Result<
    AlphaFrame,
    WriteError,
>)
    ensures
        is_frame(result, loaded_frame(*assets, source@)),
{
    match assets.binary(source) {
        None => {
            let mut message = "sprite frame ".to_owned();
            message.append(source);
            message.append(" was not loaded");
            Err(WriteError::InvalidVmData { message })
        },
        Some(data) => match decode_png(data) {
            Err(error) => {
                let mut message = source.to_owned();
                message.append(": ");
                message.append(error.as_str());
                Err(WriteError::InvalidVmData { message })
            },
            Ok((width, height, colors)) => alpha_frame(width, height, colors.as_slice()),
        },
    }
}

/// The number of bytes of a row of a mask.
pub open spec fn stride_of(width: int) -> int {
    (width + 7) / 8
}

/// A mask without a pixel, or why there is none.
pub open spec fn blank_mask(sprite: Sprite) -> Result<Seq<u8>, WriteFault> {
    if sprite.width <= 0 || sprite.height <= 0 {
        Ok(seq![])
    } else if sprite.width > 0x7fff_fff8 {
        Err(invalid("sprite "@ + sprite.name@ + " has an invalid width"@))
    } else if stride_of(sprite.width as int) * sprite.height > usize::MAX {
        Err(invalid("sprite "@ + sprite.name@ + " mask is too large"@))
    } else {
        Ok(
            Seq::new(
                (stride_of(sprite.width as int) * sprite.height) as nat,
                |k: int| 0u8,
            ),
        )
    }
}

fn sprite_error(sprite: &Sprite, problem: &str) -> (error: WriteError)
    ensures
        error@ == invalid("sprite "@ + sprite.name@ + problem@),
{
    let mut message = "sprite ".to_owned();
    message.append(sprite.name.as_str());
    message.append(problem);
    WriteError::InvalidVmData { message }
}

/// Returns a mask without a pixel.
pub fn empty_mask(sprite: &Sprite) -> (result: Result<Vec<u8>, WriteError>)
    ensures
        match result {
            Ok(mask) => blank_mask(*sprite) == Ok::<Seq<u8>, WriteFault>(mask@),
            Err(error) => blank_mask(*sprite) == Err::<Seq<u8>, WriteFault>(error@),
        },
{
    let mut mask: Vec<u8> = Vec::new();
    if sprite.width <= 0 || sprite.height <= 0 {
        assert(mask@ =~= seq![]);
        return Ok(mask);
    }
    if sprite.width > 0x7fff_fff8 {
        return Err(sprite_error(sprite, " has an invalid width"));
    }
    let stride = (sprite.width as u64 + 7) / 8;
    let height = sprite.height as u64;
    assert(0 <= stride * height <= 0x1000_0000 * 0x7fff_ffff) by (nonlinear_arith)
        requires
            0 <= stride <= 0x1000_0000,
            0 <= height <= 0x7fff_ffff,
    ;
    let length = stride * height;
    if length > usize::MAX as u64 {
        return Err(sprite_error(sprite, " mask is too large"));
    }
    let count = length as usize;
    let mut index: usize = 0;
    while index < count
        invariant
            index <= count,
            mask@ == Seq::new(index as nat, |k: int| 0u8),
        decreases count - index,
    {
        mask.push(0);
        index += 1;
        assert(mask@ =~= Seq::new(index as nat, |k: int| 0u8));
    }
    Ok(mask)
}

/// A rectangle of pixels, with its edges.
#[derive(Debug, Clone, Copy, PartialEq, Eq, Structural)]
pub struct Edges {
    pub top: i32,
    pub left: i32,
    pub right: i32,
    pub bottom: i32,
}

pub open spec fn lesser(first: i32, second: i32) -> i32 {
    if second < first {
        second
    } else {
        first
    }
}

pub open spec fn greater(first: i32, second: i32) -> i32 {
    if second > first {
        second
    } else {
        first
    }
}

/// The edges with a pixel between them.
pub open spec fn with_point(edges: Edges, x: i32, y: i32) -> Edges {
    Edges {
        top: lesser(edges.top, y),
        left: lesser(edges.left, x),
        right: greater(edges.right, x),
        bottom: greater(edges.bottom, y),
    }
}

/// The edges around the first pixels that are opaque.
pub open spec fn opaque_edges(sprite: Sprite, frame: FrameView, count: int) -> Edges
    decreases count,
{
    if count <= 0 {
        Edges {
            top: (sprite.height - 1) as i32,
            left: (sprite.width - 1) as i32,
            right: 0,
            bottom: 0,
        }
    } else {
        let before = opaque_edges(sprite, frame, count - 1);
        let pixel = count - 1;
        if frame.alpha[pixel] > sprite.collision_tolerance {
            with_point(
                before,
                (pixel % (frame.width as int)) as i32,
                (pixel / (frame.width as int)) as i32,
            )
        } else {
            before
        }
    }
}

/// The number of pixels of a frame that are known.
pub open spec fn pixel_count(frame: FrameView) -> int {
    if frame.width * frame.height < frame.alpha.len() {
        frame.width * frame.height
    } else {
        frame.alpha.len() as int
    }
}

/// A number between two others.
pub open spec fn clamped(value: i32, most: int) -> i32 {
    if value < 0 {
        0
    } else if value > most {
        most as i32
    } else {
        value
    }
}

/// The edges of a sprite: around what is opaque, around the whole sprite, or as
/// they are given.
pub open spec fn own_edges(sprite: Sprite, frame: FrameView) -> Edges {
    let right = sprite.width - 1;
    let bottom = sprite.height - 1;
    if sprite.bounding_box_mode == 0 {
        opaque_edges(sprite, frame, pixel_count(frame))
    } else if sprite.bounding_box_mode == 1 {
        Edges { top: 0, left: 0, right: right as i32, bottom: bottom as i32 }
    } else {
        Edges {
            top: clamped(sprite.bounding_box_top, bottom),
            left: clamped(sprite.bounding_box_left, right),
            right: clamped(sprite.bounding_box_right, right),
            bottom: clamped(sprite.bounding_box_bottom, bottom),
        }
    }
}

/// The edges of the mask of a frame, within the sprite and the frame.
pub open spec fn mask_edges(sprite: Sprite, frame: FrameView) -> Edges {
    let edges = own_edges(sprite, frame);
    Edges {
        top: greater(edges.top, 0),
        left: greater(edges.left, 0),
        right: lesser(
            lesser(edges.right, (sprite.width - 1) as i32),
            (frame.width - 1) as i32,
        ),
        bottom: lesser(
            lesser(edges.bottom, (sprite.height - 1) as i32),
            (frame.height - 1) as i32,
        ),
    }
}

proof fn lemma_pixel(pixel: int, width: int, height: int)
    requires
        0 <= pixel < width * height,
        0 < width,
        0 <= height,
    ensures
        0 <= pixel % width < width,
        0 <= pixel / width < height,
{
    assert(0 <= pixel % width < width && 0 <= pixel / width < height) by (nonlinear_arith)
        requires
            0 <= pixel < width * height,
            0 < width,
            0 <= height,
    ;
}

fn find_opaque_edges(sprite: &Sprite, frame: &AlphaFrame) -> (edges: Edges)
    requires
        sprite.width > 0,
        sprite.height > 0,
        frame.width > 0,
        frame.height > 0,
    ensures
        edges == opaque_edges(*sprite, frame@, pixel_count(frame@)),
{
    let mut edges = Edges {
        top: sprite.height - 1,
        left: sprite.width - 1,
        right: 0,
        bottom: 0,
    };
    assert(0 <= frame.width * frame.height <= 0x7fff_ffff * 0x7fff_ffff) by (nonlinear_arith)
        requires
            0 <= frame.width <= 0x7fff_ffff,
            0 <= frame.height <= 0x7fff_ffff,
    ;
    let area = frame.width as u64 * frame.height as u64;
    let count: usize = if area < frame.alpha.len() as u64 {
        area as usize
    } else {
        frame.alpha.len()
    };
    let width = frame.width as usize;
    let mut pixel: usize = 0;
    while pixel < count
        invariant
            pixel <= count,
            count == pixel_count(frame@),
            count <= frame.alpha@.len(),
            width == frame.width,
            0 < frame.width,
            0 < frame.height,
            count <= frame.width * frame.height,
            edges == opaque_edges(*sprite, frame@, pixel as int),
        decreases count - pixel,
    {
        proof {
            lemma_pixel(pixel as int, frame.width as int, frame.height as int);
        }
        if frame.alpha[pixel] as i32 > sprite.collision_tolerance {
            let x = (pixel % width) as i32;
            let y = (pixel / width) as i32;
            if y < edges.top {
                edges.top = y;
            }
            if x < edges.left {
                edges.left = x;
            }
            if x > edges.right {
                edges.right = x;
            }
            if y > edges.bottom {
                edges.bottom = y;
            }
        }
        pixel += 1;
    }
    edges
}

fn clamp(value: i32, most: i32) -> (result: i32)
    requires
        0 <= most,
    ensures
        result == clamped(value, most as int),
{
    if value < 0 {
        0
    } else if value > most {
        most
    } else {
        value
    }
}

/// Returns the edges of the mask of a frame.
pub fn mask_bounds(sprite: &Sprite, frame: &AlphaFrame) -> (edges: Edges)
    requires
        sprite.width > 0,
        sprite.height > 0,
        frame.width > 0,
        frame.height > 0,
    ensures
        edges == mask_edges(*sprite, frame@),
{
    let right = sprite.width - 1;
    let bottom = sprite.height - 1;
    let mut edges = if sprite.bounding_box_mode == 0 {
        find_opaque_edges(sprite, frame)
    } else if sprite.bounding_box_mode == 1 {
        Edges { top: 0, left: 0, right, bottom }
    } else {
        Edges {
            top: clamp(sprite.bounding_box_top, bottom),
            left: clamp(sprite.bounding_box_left, right),
            right: clamp(sprite.bounding_box_right, right),
            bottom: clamp(sprite.bounding_box_bottom, bottom),
        }
    };
    if edges.top < 0 {
        edges.top = 0;
    }
    if edges.left < 0 {
        edges.left = 0;
    }
    if right < edges.right {
        edges.right = right;
    }
    if frame.width - 1 < edges.right {
        edges.right = frame.width - 1;
    }
    if bottom < edges.bottom {
        edges.bottom = bottom;
    }
    if frame.height - 1 < edges.bottom {
        edges.bottom = frame.height - 1;
    }
    edges
}

/// A pixel, and the ellipse or the diamond that it may be within: its middle
/// and how far its left and its upper edge are from there.
#[derive(Debug, Clone, Copy, PartialEq, Eq, Structural)]
pub struct ShapePoint {
    pub diamond: bool,
    pub x: i32,
    pub y: i32,
    pub center_x: i32,
    pub center_y: i32,
    pub reach_x: i32,
    pub reach_y: i32,
}

/// Which pixels a function finds within shapes.
pub open spec fn within_by<F: Fn(ShapePoint) -> bool>(within: F) -> spec_fn(ShapePoint) -> bool {
    |point: ShapePoint| choose|result: bool| call_ensures(within, (point,), result)
}

/// Whether a function says of each pixel whether it is within a shape.
pub open spec fn is_geometry<F: Fn(ShapePoint) -> bool>(within: F) -> bool {
    &&& forall|point: ShapePoint| #[trigger] call_requires(within, (point,))
    &&& forall|point: ShapePoint, result: bool| #[trigger]
        call_ensures(within, (point,), result) ==> result == within_by(within)(point)
}

/// Half of a number, without its fraction.
pub open spec fn half_of(value: i32) -> i32 {
    if value < 0 {
        (-(-value / 2)) as i32
    } else {
        (value as int / 2) as i32
    }
}

/// The pixel of a sprite that may be within a shape.
pub open spec fn shape_point(sprite: Sprite, x: i32, y: i32) -> ShapePoint {
    let center_x = half_of(sprite.bounding_box_left.wrapping_add(sprite.bounding_box_right));
    let center_y = half_of(sprite.bounding_box_bottom.wrapping_add(sprite.bounding_box_top));
    ShapePoint {
        diamond: sprite.collision_kind == 3,
        x,
        y,
        center_x,
        center_y,
        reach_x: center_x.wrapping_sub(sprite.bounding_box_left),
        reach_y: center_y.wrapping_sub(sprite.bounding_box_top),
    }
}

/// Whether a pixel within the edges belongs to the mask: the opaque ones, all,
/// or those within a shape. A mask of the last kind is that of the first frame.
pub open spec fn is_marked(
    sprite: Sprite,
    frame: FrameView,
    within: spec_fn(ShapePoint) -> bool,
    merging: bool,
    x: i32,
    y: i32,
) -> bool {
    let pixel = y * frame.width + x;
    if sprite.collision_kind == 0 {
        0 <= pixel < frame.alpha.len() && frame.alpha[pixel] > sprite.collision_tolerance
    } else if sprite.collision_kind == 1 {
        true
    } else if sprite.collision_kind == 2 || sprite.collision_kind == 3 {
        within(shape_point(sprite, x, y))
    } else {
        sprite.collision_kind == 5 && !merging
    }
}

/// A mask with a pixel.
pub open spec fn with_pixel(mask: Seq<u8>, stride: int, x: i32, y: i32) -> Seq<u8> {
    let index = y * stride + x as int / 8;
    if 0 <= index < mask.len() {
        mask.update(index, mask[index] | (1u8 << ((7 - x % 8) as u8)))
    } else {
        mask
    }
}

/// A mask with the pixels of a row up to one.
pub open spec fn with_row(
    mask: Seq<u8>,
    sprite: Sprite,
    frame: FrameView,
    within: spec_fn(ShapePoint) -> bool,
    merging: bool,
    y: i32,
    left: int,
    end: int,
) -> Seq<u8>
    decreases end - left,
{
    if end <= left {
        mask
    } else {
        let before = with_row(mask, sprite, frame, within, merging, y, left, end - 1);
        let x = (end - 1) as i32;
        if is_marked(sprite, frame, within, merging, x, y) {
            with_pixel(before, stride_of(sprite.width as int), x, y)
        } else {
            before
        }
    }
}

/// A mask with the pixels of rows up to one.
pub open spec fn with_rows(
    mask: Seq<u8>,
    sprite: Sprite,
    frame: FrameView,
    within: spec_fn(ShapePoint) -> bool,
    merging: bool,
    edges: Edges,
    end: int,
) -> Seq<u8>
    decreases end - edges.top,
{
    if end <= edges.top {
        mask
    } else {
        with_row(
            with_rows(mask, sprite, frame, within, merging, edges, end - 1),
            sprite,
            frame,
            within,
            merging,
            (end - 1) as i32,
            edges.left as int,
            edges.right + 1,
        )
    }
}

/// A mask with the pixels of a frame.
pub open spec fn with_frame(
    mask: Seq<u8>,
    sprite: Sprite,
    frame: FrameView,
    within: spec_fn(ShapePoint) -> bool,
    merging: bool,
) -> Seq<u8> {
    if sprite.width <= 0 || sprite.height <= 0 || frame.width <= 0 || frame.height <= 0 {
        mask
    } else {
        let edges = mask_edges(sprite, frame);
        if edges.top > edges.bottom || edges.left > edges.right {
            mask
        } else {
            with_rows(mask, sprite, frame, within, merging, edges, edges.bottom + 1)
        }
    }
}

fn half(value: i32) -> (result: i32)
    ensures
        result == half_of(value),
{
    let wide = value as i64;
    if wide < 0 {
        (-((((-wide) as u64) / 2) as i64)) as i32
    } else {
        (wide as u64 / 2) as i32
    }
}

fn point_of(sprite: &Sprite, x: i32, y: i32) -> (point: ShapePoint)
    ensures
        point == shape_point(*sprite, x, y),
{
    let center_x = half(sprite.bounding_box_left.wrapping_add(sprite.bounding_box_right));
    let center_y = half(sprite.bounding_box_bottom.wrapping_add(sprite.bounding_box_top));
    ShapePoint {
        diamond: sprite.collision_kind == 3,
        x,
        y,
        center_x,
        center_y,
        reach_x: center_x.wrapping_sub(sprite.bounding_box_left),
        reach_y: center_y.wrapping_sub(sprite.bounding_box_top),
    }
}

fn marks<F: Fn(ShapePoint) -> bool>(
    sprite: &Sprite,
    frame: &AlphaFrame,
    within: &F,
    merging: bool,
    x: i32,
    y: i32,
) -> (result: bool)
    requires
        is_geometry(*within),
        0 <= x,
        0 <= y,
        0 < frame.width,
    ensures
        result == is_marked(*sprite, frame@, within_by(*within), merging, x, y),
{
    if sprite.collision_kind == 0 {
        assert(0 <= y * frame.width <= 0x7fff_ffff * 0x7fff_ffff) by (nonlinear_arith)
            requires
                0 <= y <= 0x7fff_ffff,
                0 <= frame.width <= 0x7fff_ffff,
        ;
        let pixel = y as u64 * frame.width as u64 + x as u64;
        pixel < frame.alpha.len() as u64 && frame.alpha[pixel as usize] as i32
            > sprite.collision_tolerance
    } else if sprite.collision_kind == 1 {
        true
    } else if sprite.collision_kind == 2 || sprite.collision_kind == 3 {
        within(point_of(sprite, x, y))
    } else {
        sprite.collision_kind == 5 && !merging
    }
}

fn set_pixel(mask: &mut Vec<u8>, width: i32, x: i32, y: i32)
    requires
        0 < width,
        0 <= x,
        0 <= y,
    ensures
        final(mask)@ == with_pixel(old(mask)@, stride_of(width as int), x, y),
{
    let stride = (width as u64 + 7) / 8;
    assert(0 <= y * stride <= 0x7fff_ffff * 0x1000_0000) by (nonlinear_arith)
        requires
            0 <= y <= 0x7fff_ffff,
            0 <= stride <= 0x1000_0000,
    ;
    let index = y as u64 * stride + x as u64 / 8;
    if index < mask.len() as u64 {
        let place = index as usize;
        let shift = (7 - x as u32 % 8) as u8;
        assert(shift == (7 - x % 8) as u8);
        let byte = mask[place] | (1u8 << shift);
        mask.set(place, byte);
    }
}

/// Adds the pixels of a frame to a mask.
#[verifier::spinoff_prover]
pub fn apply_mask<F: Fn(ShapePoint) -> bool>(
    sprite: &Sprite,
    frame: &AlphaFrame,
    mask: &mut Vec<u8>,
    merging: bool,
    within: &F,
)
    requires
        is_geometry(*within),
    ensures
        final(mask)@ == with_frame(
            old(mask)@,
            *sprite,
            frame@,
            within_by(*within),
            merging,
        ),
{
    if sprite.width <= 0 || sprite.height <= 0 || frame.width <= 0 || frame.height <= 0 {
        return;
    }
    let edges = mask_bounds(sprite, frame);
    if edges.top > edges.bottom || edges.left > edges.right {
        return;
    }
    let ghost start = mask@;
    let ghost inside = within_by(*within);
    let ghost view = frame@;
    assert(edges.right < sprite.width && edges.bottom < sprite.height);
    assert(0 <= edges.left && 0 <= edges.top);
    let mut y = edges.top;
    while y <= edges.bottom
        invariant
            is_geometry(*within),
            inside == within_by(*within),
            view == frame@,
            0 < sprite.width,
            0 < frame.width,
            0 <= edges.left,
            0 <= edges.top <= y,
            edges.top <= edges.bottom,
            y <= edges.bottom + 1,
            edges.left <= edges.right < sprite.width,
            edges.bottom < sprite.height,
            mask@ == with_rows(start, *sprite, view, inside, merging, edges, y as int),
        decreases edges.bottom + 1 - y,
    {
        let ghost row = mask@;
        let mut x = edges.left;
        while x <= edges.right
            invariant
                is_geometry(*within),
                inside == within_by(*within),
                view == frame@,
                0 < sprite.width,
                0 < frame.width,
                0 <= edges.left <= x,
                0 <= y,
                x <= edges.right + 1,
                edges.right < sprite.width,
                mask@ == with_row(
                    row,
                    *sprite,
                    view,
                    inside,
                    merging,
                    y,
                    edges.left as int,
                    x as int,
                ),
            decreases edges.right + 1 - x,
        {
            if marks(sprite, frame, within, merging, x, y) {
                set_pixel(mask, sprite.width, x, y);
            }
            x += 1;
        }
        y += 1;
    }
}

/// The mask of the first frames together.
pub open spec fn merged_mask(
    mask: Seq<u8>,
    sprite: Sprite,
    frames: Seq<FrameView>,
    within: spec_fn(ShapePoint) -> bool,
    count: int,
) -> Seq<u8>
    decreases count,
{
    if count <= 0 {
        mask
    } else {
        with_frame(
            merged_mask(mask, sprite, frames, within, count - 1),
            sprite,
            frames[count - 1],
            within,
            count > 1,
        )
    }
}

/// The masks of a sprite: one for each frame, or one for all of them.
pub open spec fn masks_of(
    sprite: Sprite,
    frames: Seq<FrameView>,
    within: spec_fn(ShapePoint) -> bool,
) -> Result<Seq<Seq<u8>>, WriteFault> {
    if sprite.separate_masks && frames.len() == 0 {
        Ok(seq![])
    } else {
        match blank_mask(sprite) {
            Err(fault) => Err(fault),
            Ok(mask) => if sprite.separate_masks {
                Ok(
                    Seq::new(
                        frames.len(),
                        |k: int| with_frame(mask, sprite, frames[k], within, false),
                    ),
                )
            } else {
                Ok(seq![merged_mask(mask, sprite, frames, within, frames.len() as int)])
            },
        }
    }
}

/// The bytes of masks.
pub open spec fn mask_views(masks: Seq<Vec<u8>>) -> Seq<Seq<u8>> {
    masks.map_values(|mask: Vec<u8>| mask@)
}

/// Returns the masks of a sprite.
pub fn sprite_masks<F: Fn(ShapePoint) -> bool>(
    sprite: &Sprite,
    frames: &[AlphaFrame],
    within: &F,
) -> (result: Result<Vec<Vec<u8>>, WriteError>)
    requires
        is_geometry(*within),
    ensures
        match result {
            Ok(masks) => masks_of(*sprite, frame_views(frames@), within_by(*within)) == Ok::<
                Seq<Seq<u8>>,
                WriteFault,
            >(mask_views(masks@)),
            Err(error) => masks_of(*sprite, frame_views(frames@), within_by(*within)) == Err::<
                Seq<Seq<u8>>,
                WriteFault,
            >(error@),
        },
{
    let ghost views = frame_views(frames@);
    let ghost inside = within_by(*within);
    let mut masks: Vec<Vec<u8>> = Vec::new();
    if sprite.separate_masks && frames.len() == 0 {
        assert(mask_views(masks@) =~= seq![]);
        return Ok(masks);
    }
    let blank = match empty_mask(sprite) {
        Ok(mask) => mask,
        Err(error) => {
            return Err(error);
        },
    };
    if sprite.separate_masks {
        let mut index: usize = 0;
        while index < frames.len()
            invariant
                index <= frames@.len(),
                is_geometry(*within),
                inside == within_by(*within),
                views == frame_views(frames@),
                masks@.len() == index,
                forall|k: int|
                    0 <= k < index ==> (#[trigger] masks@[k])@ == with_frame(
                        blank@,
                        *sprite,
                        views[k],
                        inside,
                        false,
                    ),
            decreases frames.len() - index,
        {
            let mut mask = copy_bytes(blank.as_slice());
            apply_mask(sprite, &frames[index], &mut mask, false, within);
            masks.push(mask);
            index += 1;
        }
        assert(mask_views(masks@) =~= Seq::new(
            views.len(),
            |k: int| with_frame(blank@, *sprite, views[k], inside, false),
        ));
        return Ok(masks);
    }
    let ghost start = blank@;
    let mut mask = blank;
    let mut index: usize = 0;
    while index < frames.len()
        invariant
            index <= frames@.len(),
            is_geometry(*within),
            inside == within_by(*within),
            views == frame_views(frames@),
            mask@ == merged_mask(start, *sprite, views, inside, index as int),
        decreases frames.len() - index,
    {
        apply_mask(sprite, &frames[index], &mut mask, index != 0, within);
        index += 1;
    }
    masks.push(mask);
    assert(mask_views(masks@) =~= seq![
        merged_mask(start, *sprite, views, inside, views.len() as int),
    ]);
    Ok(masks)
}

/// Whether a pixel belongs to a mask.
pub open spec fn has_pixel(mask: Seq<u8>, stride: int, x: int, y: int) -> bool {
    let index = y * stride + x / 8;
    0 <= index < mask.len() && (mask[index] >> ((7 - x % 8) as u8)) & 1u8 == 1u8
}

/// Whether a pixel of a frame belongs to the mask of a sprite: one within the
/// edges that is marked.
pub open spec fn in_mask(
    sprite: Sprite,
    frame: FrameView,
    within: spec_fn(ShapePoint) -> bool,
    merging: bool,
    x: int,
    y: int,
) -> bool {
    let edges = mask_edges(sprite, frame);
    &&& frame.width > 0
    &&& frame.height > 0
    &&& edges.left <= x <= edges.right
    &&& edges.top <= y <= edges.bottom
    &&& is_marked(sprite, frame, within, merging, x as i32, y as i32)
}

/// Whether a mask has the size of a sprite.
pub open spec fn is_mask_of(mask: Seq<u8>, sprite: Sprite) -> bool {
    &&& sprite.width > 0
    &&& sprite.height > 0
    &&& mask.len() == stride_of(sprite.width as int) * sprite.height
}

/// Whether a pixel is one of a sprite.
pub open spec fn is_pixel_of(sprite: Sprite, x: int, y: int) -> bool {
    0 <= x < sprite.width && 0 <= y < sprite.height
}

proof fn lemma_place(stride: int, height: int, column: int, y: int)
    requires
        0 <= column < stride,
        0 <= y < height,
    ensures
        0 <= y * stride + column < stride * height,
        (y * stride + column) / stride == y,
        (y * stride + column) % stride == column,
{
    assert(0 <= y * stride + column < stride * height) by (nonlinear_arith)
        requires
            0 <= column < stride,
            0 <= y < height,
    ;
    vstd::arithmetic::div_mod::lemma_fundamental_div_mod_converse(
        y * stride + column,
        stride,
        y,
        column,
    );
}

proof fn lemma_bit(byte: u8, place: u8, other: u8)
    requires
        place < 8,
        other < 8,
    ensures
        ((byte | (1u8 << place)) >> other) & 1u8 == 1u8 <==> (byte >> other) & 1u8 == 1u8 || place
            == other,
{
    assert(((byte | (1u8 << place)) >> other) & 1u8 == 1u8 <==> (byte >> other) & 1u8 == 1u8
        || place == other) by (bit_vector)
        requires
            place < 8,
            other < 8,
    ;
}

#[verifier::spinoff_prover]
proof fn lemma_with_pixel(mask: Seq<u8>, sprite: Sprite, x: i32, y: i32, column: int, row: int)
    requires
        is_mask_of(mask, sprite),
        is_pixel_of(sprite, x as int, y as int),
        is_pixel_of(sprite, column, row),
    ensures
        ({
            let stride = stride_of(sprite.width as int);
            let after = with_pixel(mask, stride, x, y);
            &&& is_mask_of(after, sprite)
            &&& has_pixel(after, stride, column, row) <==> has_pixel(mask, stride, column, row) || (
            column == x && row == y)
        }),
{
    let stride = stride_of(sprite.width as int);
    let index = y * stride + x as int / 8;
    let other = row * stride + column / 8;
    lemma_place(stride, sprite.height as int, x as int / 8, y as int);
    lemma_place(stride, sprite.height as int, column / 8, row);
    if index == other {
        assert(row == y && column / 8 == x as int / 8);
        lemma_bit(mask[index], (7 - x % 8) as u8, (7 - column % 8) as u8);
    }
}

#[verifier::spinoff_prover]
proof fn lemma_with_row(
    mask: Seq<u8>,
    sprite: Sprite,
    frame: FrameView,
    within: spec_fn(ShapePoint) -> bool,
    merging: bool,
    y: i32,
    left: int,
    end: int,
    column: int,
    row: int,
)
    requires
        is_mask_of(mask, sprite),
        is_pixel_of(sprite, column, row),
        0 <= y < sprite.height,
        0 <= left,
        end <= sprite.width,
    ensures
        ({
            let stride = stride_of(sprite.width as int);
            let after = with_row(mask, sprite, frame, within, merging, y, left, end);
            &&& is_mask_of(after, sprite)
            &&& has_pixel(after, stride, column, row) <==> has_pixel(mask, stride, column, row) || (
            row == y && left <= column < end && is_marked(
                sprite,
                frame,
                within,
                merging,
                column as i32,
                row as i32,
            ))
        }),
    decreases end - left,
{
    if end > left {
        lemma_with_row(mask, sprite, frame, within, merging, y, left, end - 1, column, row);
        let before = with_row(mask, sprite, frame, within, merging, y, left, end - 1);
        lemma_with_pixel(before, sprite, (end - 1) as i32, y, column, row);
    }
}

#[verifier::spinoff_prover]
proof fn lemma_with_rows(
    mask: Seq<u8>,
    sprite: Sprite,
    frame: FrameView,
    within: spec_fn(ShapePoint) -> bool,
    merging: bool,
    edges: Edges,
    end: int,
    column: int,
    row: int,
)
    requires
        is_mask_of(mask, sprite),
        is_pixel_of(sprite, column, row),
        0 <= edges.top,
        end <= sprite.height,
        0 <= edges.left,
        edges.right < sprite.width,
    ensures
        ({
            let stride = stride_of(sprite.width as int);
            let after = with_rows(mask, sprite, frame, within, merging, edges, end);
            &&& is_mask_of(after, sprite)
            &&& has_pixel(after, stride, column, row) <==> has_pixel(mask, stride, column, row) || (
            edges.top <= row < end && edges.left <= column <= edges.right && is_marked(
                sprite,
                frame,
                within,
                merging,
                column as i32,
                row as i32,
            ))
        }),
    decreases end - edges.top,
{
    if end > edges.top {
        lemma_with_rows(mask, sprite, frame, within, merging, edges, end - 1, column, row);
        lemma_with_row(
            with_rows(mask, sprite, frame, within, merging, edges, end - 1),
            sprite,
            frame,
            within,
            merging,
            (end - 1) as i32,
            edges.left as int,
            edges.right + 1,
            column,
            row,
        );
    }
}

/// A frame adds to a mask those of its pixels that belong to the mask of the
/// sprite, and leaves all others as they are.
pub proof fn law_frame_adds_its_pixels(
    mask: Seq<u8>,
    sprite: Sprite,
    frame: FrameView,
    within: spec_fn(ShapePoint) -> bool,
    merging: bool,
    x: int,
    y: int,
)
    requires
        is_mask_of(mask, sprite),
        is_pixel_of(sprite, x, y),
    ensures
        ({
            let stride = stride_of(sprite.width as int);
            let after = with_frame(mask, sprite, frame, within, merging);
            &&& is_mask_of(after, sprite)
            &&& has_pixel(after, stride, x, y) <==> has_pixel(mask, stride, x, y) || in_mask(
                sprite,
                frame,
                within,
                merging,
                x,
                y,
            )
        }),
{
    let edges = mask_edges(sprite, frame);
    if frame.width > 0 && frame.height > 0 && edges.top <= edges.bottom && edges.left
        <= edges.right {
        lemma_with_rows(
            mask,
            sprite,
            frame,
            within,
            merging,
            edges,
            edges.bottom + 1,
            x,
            y,
        );
    }
}

/// A mask that is made for a sprite has its size and no pixel.
pub proof fn law_blank_mask_has_no_pixel(sprite: Sprite, x: int, y: int)
    requires
        blank_mask(sprite) is Ok,
        is_pixel_of(sprite, x, y),
    ensures
        is_mask_of(blank_mask(sprite)->Ok_0, sprite),
        !has_pixel(blank_mask(sprite)->Ok_0, stride_of(sprite.width as int), x, y),
{
    let stride = stride_of(sprite.width as int);
    let place = (7 - x % 8) as u8;
    lemma_place(stride, sprite.height as int, x / 8, y);
    assert((0u8 >> place) & 1u8 == 0u8) by (bit_vector)
        requires
            place < 8,
    ;
}

/// Whether a pixel of one of the first frames belongs to the mask of a sprite.
pub open spec fn in_some_frame(
    sprite: Sprite,
    frames: Seq<FrameView>,
    within: spec_fn(ShapePoint) -> bool,
    count: int,
    x: int,
    y: int,
) -> bool {
    exists|k: int| 0 <= k < count && in_mask(sprite, #[trigger] frames[k], within, k > 0, x, y)
}

/// The mask of some frames together has the pixels that one of them adds.
pub proof fn law_merged_mask_has_the_pixels_of_all_frames(
    mask: Seq<u8>,
    sprite: Sprite,
    frames: Seq<FrameView>,
    within: spec_fn(ShapePoint) -> bool,
    count: int,
    x: int,
    y: int,
)
    requires
        is_mask_of(mask, sprite),
        is_pixel_of(sprite, x, y),
        0 <= count <= frames.len(),
    ensures
        ({
            let stride = stride_of(sprite.width as int);
            let after = merged_mask(mask, sprite, frames, within, count);
            &&& is_mask_of(after, sprite)
            &&& has_pixel(after, stride, x, y) <==> has_pixel(mask, stride, x, y) || in_some_frame(
                sprite,
                frames,
                within,
                count,
                x,
                y,
            )
        }),
    decreases count,
{
    if count > 0 {
        law_merged_mask_has_the_pixels_of_all_frames(
            mask,
            sprite,
            frames,
            within,
            count - 1,
            x,
            y,
        );
        law_frame_adds_its_pixels(
            merged_mask(mask, sprite, frames, within, count - 1),
            sprite,
            frames[count - 1],
            within,
            count > 1,
            x,
            y,
        );
        if in_some_frame(sprite, frames, within, count - 1, x, y) {
            let k = choose|k: int|
                0 <= k < count - 1 && in_mask(sprite, #[trigger] frames[k], within, k > 0, x, y);
            assert(in_mask(sprite, frames[k], within, k > 0, x, y));
        }
    }
}

} // verus!
