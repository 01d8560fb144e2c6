//! Per-letter feedback colors and the game outcome.

use vstd::prelude::*;

verus! {

/// Feedback for one letter: `Green` means the letter stood in the right
/// position in some guess, `Yellow` that it occurs in the target but was
/// never placed right, `Red` that the target does not contain it at all.
#[derive(Clone, Copy, Debug, PartialEq, Eq, Structural)]
pub enum Color {
    Green,
    Yellow,
    Red,
}

/// How a finished game ended.
#[derive(Clone, Copy, Debug, PartialEq, Eq, Structural)]
pub enum GameResult {
    Win,
    Lose,
}

impl Color {
    /// Information rank of a color: `Green` is worth more than `Yellow`,
    /// which is worth more than `Red`.
    pub open spec fn rank(self) -> int {
        match self {
            Color::Green => 2,
            Color::Yellow => 1,
            Color::Red => 0,
        }
    }
}

/// The more informative of two colors.
pub open spec fn color_max(a: Color, b: Color) -> Color {
    if a.rank() >= b.rank() {
        a
    } else {
        b
    }
}

/// Information rank of an optional color: a missing entry ranks below every
/// color.
pub open spec fn opt_rank(o: Option<Color>) -> int {
    match o {
        Some(c) => c.rank(),
        None => -1,
    }
}

/// The more informative of two optional colors; a missing entry carries no
/// information at all.
pub open spec fn opt_color_max(a: Option<Color>, b: Option<Color>) -> Option<Color> {
    match (a, b) {
        (Some(x), Some(y)) => Some(color_max(x, y)),
        (Some(x), None) => Some(x),
        (None, y) => y,
    }
}

} // verus!
