//! Placement rules of the on-screen statistics block.
//!
//! Drawing needs the window's size in pixels, which only the renderer knows;
//! which edge or centre line a block is attached to is decided here.
use vstd::prelude::*;

verus! {

/// Namespace of the screen-placement rules.
pub struct Screen;

/// Where on the screen the statistics block is attached.
#[derive(Clone, Copy, Debug, PartialEq, Eq, Structural)]
pub enum ScreenPosition {
    Top,
    Bottom,
    Left,
    Right,
    TopLeft,
    TopRight,
    BottomLeft,
    BottomRight,
}

/// How each line of the block is placed horizontally.
#[derive(Clone, Copy, Debug, PartialEq, Eq, Structural)]
pub enum HorizontalAlign {
    /// Starts at the padding from the left edge.
    Left,
    /// Centred on the screen's vertical centre line.
    Center,
    /// Ends at the padding from the right edge.
    Right,
}

/// How the block as a whole is placed vertically.
#[derive(Clone, Copy, Debug, PartialEq, Eq, Structural)]
pub enum VerticalAlign {
    /// First line at the padding from the top edge.
    Top,
    /// Block centred on the screen's horizontal centre line.
    Middle,
    /// Last line ends at the padding from the bottom edge.
    Bottom,
}

impl ScreenPosition {
    /// Horizontal alignment of a position: by its left or right side, or
    /// centred when it names neither.
    pub open spec fn horizontal(self) -> HorizontalAlign {
        match self {
            ScreenPosition::Left | ScreenPosition::TopLeft | ScreenPosition::BottomLeft => HorizontalAlign::Left,
            ScreenPosition::Right | ScreenPosition::TopRight | ScreenPosition::BottomRight => HorizontalAlign::Right,
            ScreenPosition::Top | ScreenPosition::Bottom => HorizontalAlign::Center,
        }
    }

    /// Vertical alignment of a position: by its top or bottom side, or
    /// centred when it names neither.
    pub open spec fn vertical(self) -> VerticalAlign {
        match self {
            ScreenPosition::Top | ScreenPosition::TopLeft | ScreenPosition::TopRight => VerticalAlign::Top,
            ScreenPosition::Bottom | ScreenPosition::BottomLeft | ScreenPosition::BottomRight => VerticalAlign::Bottom,
            ScreenPosition::Left | ScreenPosition::Right => VerticalAlign::Middle,
        }
    }
}

impl Screen {
    /// Horizontal alignment of the lines of a statistics block at `pos`.
    pub fn horizontal_align(pos: ScreenPosition) -> (r: HorizontalAlign)
        ensures
            r == pos.horizontal(),
    {
        match pos {
            ScreenPosition::Left | ScreenPosition::TopLeft | ScreenPosition::BottomLeft => HorizontalAlign::Left,
            ScreenPosition::Right | ScreenPosition::TopRight | ScreenPosition::BottomRight => HorizontalAlign::Right,
            ScreenPosition::Top | ScreenPosition::Bottom => HorizontalAlign::Center,
        }
    }

    /// Vertical alignment of a statistics block at `pos`.
    pub fn vertical_align(pos: ScreenPosition) -> (r: VerticalAlign)
        ensures
            r == pos.vertical(),
    {
        match pos {
            ScreenPosition::Top | ScreenPosition::TopLeft | ScreenPosition::TopRight => VerticalAlign::Top,
            ScreenPosition::Bottom | ScreenPosition::BottomLeft | ScreenPosition::BottomRight => VerticalAlign::Bottom,
            ScreenPosition::Left | ScreenPosition::Right => VerticalAlign::Middle,
        }
    }
}

} // verus!
