//! What a screen shows, in whole world units.

use vstd::prelude::*;

verus! {

/// The depth the menus are drawn at.
pub const MENU_DEPTH: i32 = 60;

/// What is drawn at a place.
#[derive(Debug)]
pub enum Shape {
    /// A text, centered.
    Text(String),
    /// A square, centered.
    Square,
}

/// One thing on a screen.
#[derive(Debug)]
pub struct Drawing {
    pub shape: Shape,
    pub x: i32,
    pub y: i32,
    /// Units a font pixel measures, or the width of the square.
    pub scale: i32,
    pub depth: i32,
    /// Drawn at half strength.
    pub faded: bool,
}

/// What a drawing shows: its text, if it is one, and where.
pub struct Shown {
    pub text: Option<Seq<char>>,
    pub x: int,
    pub y: int,
    pub scale: int,
    pub depth: int,
    pub faded: bool,
}

impl View for Drawing {
    type V = Shown;

    open spec fn view(&self) -> Shown {
        Shown {
            text: match self.shape {
                Shape::Text(text) => Some(text@),
                Shape::Square => None,
            },
            x: self.x as int,
            y: self.y as int,
            scale: self.scale as int,
            depth: self.depth as int,
            faded: self.faded,
        }
    }
}

/// What a list of drawings shows.
pub open spec fn shown(drawings: Seq<Drawing>) -> Seq<Shown> {
    drawings.map_values(|drawing: Drawing| drawing@)
}

/// A text of the menus.
pub open spec fn label_shown(text: Seq<char>, x: int, y: int, scale: int) -> Shown {
    Shown { text: Some(text), x, y, scale, depth: MENU_DEPTH as int, faded: false }
}

/// The square beside the highlighted item.
pub open spec fn marker_shown(x: int, y: int, size: int) -> Shown {
    Shown { text: None, x, y, scale: size, depth: MENU_DEPTH as int, faded: false }
}

/// Add a text of the menus to a screen.
pub fn add_label(drawings: &mut Vec<Drawing>, text: String, x: i32, y: i32, scale: i32)
    ensures
        shown(final(drawings)@) == shown(old(drawings)@).push(
            label_shown(text@, x as int, y as int, scale as int),
        ),
{
    let drawing: Drawing = Drawing {
        shape: Shape::Text(text),
        x,
        y,
        scale,
        depth: MENU_DEPTH,
        faded: false,
    };
    assert(drawing@ == label_shown(text@, x as int, y as int, scale as int));
    drawings.push(drawing);
    assert(shown(drawings@) =~= shown(old(drawings)@).push(drawing@));
}

/// Add the square beside the highlighted item to a screen.
pub fn add_marker(drawings: &mut Vec<Drawing>, x: i32, y: i32, size: i32)
    ensures
        shown(final(drawings)@) == shown(old(drawings)@).push(
            marker_shown(x as int, y as int, size as int),
        ),
{
    let drawing: Drawing = Drawing {
        shape: Shape::Square,
        x,
        y,
        scale: size,
        depth: MENU_DEPTH,
        faded: false,
    };
    drawings.push(drawing);
    assert(shown(drawings@) =~= shown(old(drawings)@).push(drawing@));
}

/// What is added to a screen stands where it was put, at the menus' depth and at
/// full strength; and a list of drawings shows each of them in its place.
pub proof fn law_drawings_show_what_they_are(
    drawings: Seq<Drawing>,
    i: int,
    text: Seq<char>,
    x: int,
    y: int,
    scale: int,
)
    requires
        0 <= i < drawings.len(),
    ensures
        shown(drawings).len() == drawings.len(),
        shown(drawings)[i].x == drawings[i].x && shown(drawings)[i].y == drawings[i].y,
        shown(drawings)[i].scale == drawings[i].scale,
        shown(drawings)[i].depth == drawings[i].depth,
        shown(drawings)[i].faded == drawings[i].faded,
        drawings[i].shape is Square <==> shown(drawings)[i].text is None,
        drawings[i].shape matches Shape::Text(words) ==> shown(drawings)[i].text == Some(words@),
        label_shown(text, x, y, scale).text == Some(text),
        marker_shown(x, y, scale).text is None,
        label_shown(text, x, y, scale).x == x && marker_shown(x, y, scale).x == x,
        label_shown(text, x, y, scale).y == y && marker_shown(x, y, scale).y == y,
        label_shown(text, x, y, scale).scale == scale && marker_shown(x, y, scale).scale == scale,
        label_shown(text, x, y, scale).depth == 60 && marker_shown(x, y, scale).depth == 60,
        !label_shown(text, x, y, scale).faded && !marker_shown(x, y, scale).faded,
{
}

} // verus!
