//! The head-up display: the player's health as a bar and as a line of text.

use vstd::prelude::*;
use crate::components::Health;
use crate::SCREEN_WIDTH;

verus! {

/// The text that `format!` makes of the pattern `Health: {} / {}` and two
/// numbers.
pub uninterp spec fn health_line(current: int, max: int) -> Seq<char>;

/// `format!` with the pattern `Health: {} / {}`: the line that shows the
/// player's health.
#[verifier::external_body]
pub(crate) fn format_health(current: i32, max: i32) -> (line: String)
    ensures
        line@ == health_line(current as int, max as int),
{
    format!("Health: {} / {}", current, max)
}

/// What the display shows.
#[derive(Debug)]
pub struct Hud {
    /// The hint in the second line.
    pub hint: String,
    /// The width of the health bar, in cells of the display's fine grid.
    pub bar_width: i32,
    pub bar_current: i32,
    pub bar_max: i32,
    /// The line above the bar.
    pub line: String,
}

/// The display for a player with health `health`.
pub fn hud(health: &Health) -> (shown: Hud)
    ensures
        shown.hint@ == "Explore the Dungeon. Cursor keys to move."@,
        shown.bar_width == SCREEN_WIDTH * 2,
        shown.bar_current == health.current,
        shown.bar_max == health.max,
        shown.line@ == health_line(health.current as int, health.max as int),
{
    let hint = "Explore the Dungeon. Cursor keys to move.".to_string();
    proof {
        vstd::string::to_string_from_display_ensures_for_str(
            "Explore the Dungeon. Cursor keys to move.",
            hint,
        );
    }
    Hud {
        hint,
        bar_width: SCREEN_WIDTH * 2,
        bar_current: health.current,
        bar_max: health.max,
        line: format_health(health.current, health.max),
    }
}

} // verus!
