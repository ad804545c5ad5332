//! The three kinds of content a node can hold: windows, images and text.
use vstd::prelude::*;
use crate::ui::geom::{AbsRect, Point, Rect};

verus! {

/// An alpha of a whole, on a scale where 255 is fully opaque.
pub const ALPHA_OPAQUE: u8 = 255;

/// The eight text colours that a glyph can be drawn in.
#[derive(Debug, Clone, Copy, PartialEq, Eq, Structural)]
pub enum TextColor {
    Black,
    White,
    Red,
    Gray,
    Gold,
    Green,
    Blue,
    Lavender,
}

pub open spec fn color_id_spec(c: TextColor) -> u32 {
    match c {
        TextColor::Black => 0,
        TextColor::White => 1,
        TextColor::Red => 2,
        TextColor::Gray => 3,
        TextColor::Gold => 4,
        TextColor::Green => 5,
        TextColor::Blue => 6,
        TextColor::Lavender => 7,
    }
}

impl TextColor {
    /// The colour's number in the shader's fixed palette.
    pub fn id(&self) -> (r: u32)
        ensures
            r == color_id_spec(*self),
            r < 8,
    {
        match *self {
            TextColor::Black => 0,
            TextColor::White => 1,
            TextColor::Red => 2,
            TextColor::Gray => 3,
            TextColor::Gold => 4,
            TextColor::Green => 5,
            TextColor::Blue => 6,
            TextColor::Lavender => 7,
        }
    }
}

/// The four fonts of the glyph atlas.
#[derive(Debug, Clone, Copy, PartialEq, Eq, Structural)]
pub enum Font {
    Main,
    Mono,
    Title,
    Fantasy,
}

pub open spec fn font_id_spec(f: Font) -> u32 {
    match f {
        Font::Main => 0,
        Font::Mono => 1,
        Font::Title => 2,
        Font::Fantasy => 3,
    }
}

impl Font {
    /// The font's number in the glyph atlas.
    pub fn id(&self) -> (r: u32)
        ensures
            r == font_id_spec(*self),
            r < 4,
    {
        match *self {
            Font::Main => 0,
            Font::Mono => 1,
            Font::Title => 2,
            Font::Fantasy => 3,
        }
    }
}

/// A single line of text anchored at a point of its parent.
#[derive(Debug, Clone)]
pub struct TextLine {
    pub ui_coordinates: Point,
    /// Height of the line in pixels.
    pub lineheight: u8,
    pub color: TextColor,
    pub outline: Option<TextColor>,
    pub font: Font,
    pub alpha: u8,
    pub text: String,
}

/// A region of the user-interface texture atlas, stretched over
/// `widget_pin_rect` and repeated over `screen_draw_rect`.
#[derive(Debug, Clone, Copy, PartialEq, Eq, Structural)]
pub struct UiImage {
    pub widget: AbsRect,
    /// Where the atlas region is pinned (mapped and stretched to fit).
    pub widget_pin_rect: Rect,
    /// Where it is drawn (the region repeats over this area).
    pub screen_draw_rect: Rect,
}

/// A window: a rectangle with a background colour and an alpha that applies
/// to everything inside it.
#[derive(Debug, Clone, Copy)]
pub struct UiWindow {
    pub rect: Rect,
    /// Red, green, blue and alpha bytes.
    pub color: [u8; 4],
    pub child_alpha: u8,
}

impl UiWindow {
    pub fn new(rect: Rect, color: [u8; 4], child_alpha: u8) -> (r: UiWindow)
        ensures
            r.rect == rect,
            r.color == color,
            r.child_alpha == child_alpha,
    {
        UiWindow { rect, color, child_alpha }
    }

    pub fn get_color(&self) -> (r: [u8; 4])
        ensures
            r == self.color,
    {
        self.color
    }
}

/// The content of a node.
#[derive(Debug, Clone)]
pub enum UiElement {
    Window(UiWindow),
    Image(UiImage),
    Text(TextLine),
}

impl UiElement {
    /// The rectangle a node places itself at, if it has one of its own.
    pub open spec fn rect_spec(&self) -> Option<Rect> {
        match *self {
            UiElement::Window(w) => Some(w.rect),
            _ => None,
        }
    }

    /// The alpha a node is drawn with, relative to what it inherits: a
    /// text line's own alpha, opaque for everything else.
    pub open spec fn alpha_spec(&self) -> u8 {
        match *self {
            UiElement::Text(t) => t.alpha,
            _ => ALPHA_OPAQUE,
        }
    }

    /// The alpha a node passes on to its descendants: a window's
    /// `child_alpha`, opaque for everything else.
    pub open spec fn child_alpha_spec(&self) -> u8 {
        match *self {
            UiElement::Window(w) => w.child_alpha,
            _ => ALPHA_OPAQUE,
        }
    }

    pub fn get_rect(&self) -> (r: Option<Rect>)
        ensures
            r == self.rect_spec(),
    {
        match self {
            UiElement::Window(w) => Some(w.rect),
            _ => None,
        }
    }

    pub fn get_alpha(&self) -> (r: u8)
        ensures
            r == self.alpha_spec(),
    {
        match self {
            UiElement::Text(t) => t.alpha,
            _ => ALPHA_OPAQUE,
        }
    }

    pub fn get_child_alpha(&self) -> (r: u8)
        ensures
            r == self.child_alpha_spec(),
    {
        match self {
            UiElement::Window(w) => w.child_alpha,
            _ => ALPHA_OPAQUE,
        }
    }
}

} // verus!
