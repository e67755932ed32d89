//! The title screen and its selectable items.

use crate::game::drawing::{
    add_label, add_marker, label_shown, marker_shown, shown, Drawing, Shown,
};
use crate::game::screen::{Screen, Transition};
use vstd::prelude::*;
use vstd::string::*;

verus! {

/// The items on the title screen, in order.
pub const ITEMS: [&'static str; 2] = ["START GAME", "CONFIG"];

pub const TITLE_SCALE: i32 = 26;

pub const ITEM_SCALE: i32 = 14;

pub const ITEM_SPACING: i32 = 96;

pub const FIRST_ITEM_Y: i32 = -40;

pub const MARKER_X: i32 = -420;

/// One place further through so many items, wrapping at both ends.
pub open spec fn stepped(current: usize, len: usize, forward: bool) -> int {
    if len == 0 {
        0
    } else if forward {
        if current + 1 >= len {
            0
        } else {
            current + 1
        }
    } else if current == 0 {
        len - 1
    } else {
        current - 1
    }
}

/// Move one place through so many items, wrapping at both ends.
pub fn step(current: usize, len: usize, forward: bool) -> (next: usize)
    ensures
        next == stepped(current, len, forward),
{
    if len == 0 {
        return 0;
    }
    if forward {
        if current >= len - 1 {
            0
        } else {
            current + 1
        }
    } else if current == 0 {
        len - 1
    } else {
        current - 1
    }
}

/// A step stays among the items, and the step back undoes it.
pub proof fn law_steps_undo(current: usize, len: usize, forward: bool)
    requires
        current < len,
    ensures
        0 <= stepped(current, len, forward) < len,
        stepped(stepped(current, len, forward) as usize, len, !forward) == current,
{
}

/// The keys that were just pressed on the title screen.
#[derive(Clone, Copy, Debug, PartialEq, Eq, Structural)]
pub struct MenuKeys {
    pub down: bool,
    pub up: bool,
    pub select: bool,
}

/// What the keys do on the title screen.
///
/// While a wipe is running they do nothing. The screen is drawn anew exactly
/// when the highlight was moved, which is what is returned.
pub fn navigate(keys: MenuKeys, cursor: &mut usize, transition: &mut Transition) -> (redraw: bool)
    ensures
        redraw == (!old(transition).runs() && (keys.down || keys.up)),
        *final(cursor) == if redraw {
            stepped(*old(cursor), 2, keys.down)
        } else {
            *old(cursor) as int
        },
        *final(transition) == if !redraw && keys.select {
            old(transition).started(
                if *old(cursor) == 0 {
                    Screen::Playing
                } else {
                    Screen::Config
                },
            )
        } else {
            *old(transition)
        },
{
    if transition.is_running() {
        return false;
    }
    if keys.down || keys.up {
        *cursor = step(*cursor, 2, keys.down);
        return true;
    }
    if keys.select {
        if *cursor == 0 {
            transition.start(Screen::Playing);
        } else {
            transition.start(Screen::Config);
        }
    }
    false
}

/// What the title screen shows of one item: its label, and the marker if it is
/// highlighted.
pub open spec fn item_shown(index: int, selected: usize) -> Seq<Shown> {
    let y = FIRST_ITEM_Y - index * ITEM_SPACING;
    let label = seq![label_shown(ITEMS@[index]@, 0, y, ITEM_SCALE as int)];
    if index == selected {
        label.push(marker_shown(MARKER_X as int, y, ITEM_SCALE * 2))
    } else {
        label
    }
}

/// The whole title screen.
pub open spec fn menu_shown(selected: usize) -> Seq<Shown> {
    seq![label_shown("DODGE ROYALE"@, 0, 150, TITLE_SCALE as int)] + item_shown(0, selected)
        + item_shown(1, selected)
}

/// Draw the whole screen.
pub fn draw_menu(selected: usize) -> (drawings: Vec<Drawing>)
    ensures
        shown(drawings@) == menu_shown(selected),
{
    let mut drawings: Vec<Drawing> = Vec::new();
    add_label(&mut drawings, "DODGE ROYALE".to_owned(), 0, 150, TITLE_SCALE);
    let ghost title = seq![label_shown("DODGE ROYALE"@, 0, 150, TITLE_SCALE as int)];
    assert(shown(drawings@) =~= title);
    add_label(&mut drawings, ITEMS[0].to_owned(), 0, FIRST_ITEM_Y, ITEM_SCALE);
    if selected == 0 {
        add_marker(&mut drawings, MARKER_X, FIRST_ITEM_Y, ITEM_SCALE * 2);
    }
    assert(shown(drawings@) =~= title + item_shown(0, selected));
    let y: i32 = FIRST_ITEM_Y - ITEM_SPACING;
    add_label(&mut drawings, ITEMS[1].to_owned(), 0, y, ITEM_SCALE);
    if selected == 1 {
        add_marker(&mut drawings, MARKER_X, y, ITEM_SCALE * 2);
    }
    assert(shown(drawings@) =~= menu_shown(selected));
    drawings
}

/// A step down goes to the next item and from the last to the first; a step up
/// goes the other way. Without items there is nowhere to go.
pub proof fn law_steps_take_the_next_item(current: usize, len: usize)
    requires
        current < len,
    ensures
        current + 1 < len ==> stepped(current, len, true) == current + 1,
        current + 1 == len ==> stepped(current, len, true) == 0,
        current > 0 ==> stepped(current, len, false) == current - 1,
        current == 0 ==> stepped(current, len, false) == len - 1,
        stepped(current, 0, true) == 0 && stepped(current, 0, false) == 0,
{
}

/// The title screen shows its title and both items, one below the other, and one
/// marker: beside the item that is highlighted, at its height.
pub proof fn law_the_menu_marks_its_selection(selected: usize)
    requires
        selected < 2,
    ensures
        ({
            let drawn = menu_shown(selected);
            let second = if selected == 0 {
                3int
            } else {
                2int
            };
            &&& drawn.len() == 4
            &&& drawn[0].text == Some("DODGE ROYALE"@)
            &&& drawn[1].text == Some(ITEMS@[0]@)
            &&& drawn[second].text == Some(ITEMS@[1]@)
            &&& drawn[1].y > drawn[second].y
            &&& drawn[selected + 2].text is None
            &&& drawn[selected + 2].y == drawn[selected + 1].y
            &&& drawn[selected + 2].x < drawn[selected + 1].x
        }),
{
}

/// A selection past the items marks none of them; the title and the items stay.
pub proof fn law_the_menu_marks_nothing_else(selected: usize)
    requires
        selected >= 2,
    ensures
        ({
            let drawn = menu_shown(selected);
            &&& drawn.len() == 3
            &&& drawn[0].text == Some("DODGE ROYALE"@)
            &&& drawn[1].text == Some(ITEMS@[0]@)
            &&& drawn[2].text == Some(ITEMS@[1]@)
            &&& drawn[1].y > drawn[2].y
        }),
{
}

} // verus!
