//! The pre-game menu's decisions: which option the pointer hovers, which
//! image the menu shows for that, and what a click selects. The windowing,
//! mouse polling and image loading around these stay with the caller.

use vstd::prelude::*;

verus! {

/// The two selectable game modes.
#[derive(PartialEq, Eq, Structural, Clone, Copy, Debug)]
pub enum MenuChoice {
    Easy,
    Hard,
}

/// Which of the three menu images to show.
#[derive(PartialEq, Eq, Structural, Clone, Copy, Debug)]
pub enum MenuDisplay {
    Plain,
    EasyHighlight,
    HardHighlight,
}

/// Whether the pointer is over the easy-mode button.
pub open spec fn over_easy(x: int, y: int) -> bool {
    200 < x < 400 && 300 < y < 350
}

/// Whether the pointer is over the hard-mode button.
pub open spec fn over_hard(x: int, y: int) -> bool {
    500 < x < 700 && 300 < y < 350
}

/// Whether the pointer is over the easy-mode button.
pub fn is_mouse_over_easy(x: usize, y: usize) -> (r: bool)
    ensures
        r == over_easy(x as int, y as int),
{
    x > 200 && x < 400 && y > 300 && y < 350
}

/// Whether the pointer is over the hard-mode button.
pub fn is_mouse_over_hard(x: usize, y: usize) -> (r: bool)
    ensures
        r == over_hard(x as int, y as int),
{
    x > 500 && x < 700 && y > 300 && y < 350
}

/// One frame of the menu: which image to show for the current pointer
/// position, and the choice a click commits — the hovered option, or
/// nothing when the pointer hovers neither button.
pub fn menu_frame(mouse_x: usize, mouse_y: usize, clicked: bool) -> (r: (
    MenuDisplay,
    Option<MenuChoice>,
))
    ensures
        r.0 == (if over_easy(mouse_x as int, mouse_y as int) {
            MenuDisplay::EasyHighlight
        } else if over_hard(mouse_x as int, mouse_y as int) {
            MenuDisplay::HardHighlight
        } else {
            MenuDisplay::Plain
        }),
        r.1 == (if clicked && over_easy(mouse_x as int, mouse_y as int) {
            Some(MenuChoice::Easy)
        } else if clicked && over_hard(mouse_x as int, mouse_y as int) {
            Some(MenuChoice::Hard)
        } else {
            None::<MenuChoice>
        }),
{
    let easy = is_mouse_over_easy(mouse_x, mouse_y);
    let hard = is_mouse_over_hard(mouse_x, mouse_y);
    let display = if easy {
        MenuDisplay::EasyHighlight
    } else if hard {
        MenuDisplay::HardHighlight
    } else {
        MenuDisplay::Plain
    };
    let choice = if clicked && easy {
        Some(MenuChoice::Easy)
    } else if clicked && hard {
        Some(MenuChoice::Hard)
    } else {
        None
    };
    (display, choice)
}

} // verus!
