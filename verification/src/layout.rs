//! Where an image goes in the window.

use vstd::prelude::*;

verus! {

/// How an image is placed against the position it is drawn at.
#[derive(Clone, Copy, Debug, PartialEq, Eq, Structural)]
pub enum Alignment {
    Left,
    Center,
    Right,
}

/// The rectangle an image is drawn into, and whether it is blended with
/// what the window shows.
#[derive(Clone, Copy, Debug, PartialEq, Eq, Structural)]
pub struct Placement {
    pub x: i32,
    pub y: i32,
    pub width: u32,
    pub height: u32,
    pub blend: bool,
}

/// The corner of the rectangle. Left alignment draws at the position.
/// Centre alignment moves the corner left by half the image's width. Right
/// alignment leaves the horizontal coordinate alone and puts the vertical
/// one at the horizontal coordinate of the position less the image's width.
pub open spec fn corner(position: (i32, i32), image_width: u32, alignment: Alignment) -> (int, int) {
    match alignment {
        Alignment::Left => (position.0 as int, position.1 as int),
        Alignment::Center => (position.0 - image_width / 2, position.1 as int),
        Alignment::Right => (position.0 as int, position.0 - image_width),
    }
}

/// The corner can be written in the coordinates of a rectangle.
pub open spec fn corner_fits(position: (i32, i32), image_width: u32, alignment: Alignment) -> bool {
    &&& i32::MIN <= corner(position, image_width, alignment).0 <= i32::MAX
    &&& i32::MIN <= corner(position, image_width, alignment).1 <= i32::MAX
    &&& alignment == Alignment::Right ==> image_width <= i32::MAX
}

/// The rectangle into which an image of `image_size` (width, height) is
/// drawn at `position` in a window of `window_size`. The image is blended
/// when it is narrower or lower than the window.
pub fn draw_image(
    position: (i32, i32),
    image_size: (u32, u32),
    window_size: (u32, u32),
    alignment: Alignment,
) -> (placement: Placement)
    requires
        corner_fits(position, image_size.0, alignment),
    ensures
        placement.x == corner(position, image_size.0, alignment).0,
        placement.y == corner(position, image_size.0, alignment).1,
        placement.width == image_size.0,
        placement.height == image_size.1,
        placement.blend == (image_size.0 < window_size.0 || image_size.1 < window_size.1),
{
    let image_width = image_size.0;
    let image_height = image_size.1;
    let mut x = position.0;
    let mut y = position.1;
    match alignment {
        Alignment::Center => {
            x = position.0 - (image_width / 2) as i32;
        },
        Alignment::Right => {
            y = position.0 - image_width as i32;
        },
        Alignment::Left => {},
    }
    let blend = image_width < window_size.0 || image_height < window_size.1;
    Placement { x, y, width: image_width, height: image_height, blend }
}

} // verus!
