//! The three-way directional label and the deadband decision rule.
use vstd::prelude::*;

verus! {

/// Direction of the mid-price move over the horizon, relative to the deadband.
#[derive(Debug, Clone, Copy, PartialEq, Eq, Structural)]
pub enum Label {
    Down,
    Flat,
    Up,
}

/// The text written for a label in the output table.
pub open spec fn label_text(l: Label) -> Seq<char> {
    match l {
        Label::Down => "down"@,
        Label::Flat => "flat"@,
        Label::Up => "up"@,
    }
}

impl Label {
    /// The lower-case name of the label, as written in the `label` column.
    pub fn as_str(&self) -> (r: &'static str)
        ensures
            r@ == label_text(*self),
    {
        match self {
            Label::Down => "down",
            Label::Flat => "flat",
            Label::Up => "up",
        }
    }
}

/// The label of a relative move `r` against a deadband `eps`, given whether
/// `r > eps` (`above`) and whether `r < -eps` (`below`).
pub open spec fn band_label(above: bool, below: bool) -> Label {
    if above {
        Label::Up
    } else if below {
        Label::Down
    } else {
        Label::Flat
    }
}

/// The label of the move of the same size in the opposite direction.
pub open spec fn mirrored(l: Label) -> Label {
    match l {
        Label::Down => Label::Up,
        Label::Flat => Label::Flat,
        Label::Up => Label::Down,
    }
}

impl Label {
    /// Up when the move lies above the deadband, else Down when it lies below
    /// its negative, else Flat.
    pub fn from_band(above: bool, below: bool) -> (r: Label)
        ensures
            r == band_label(above, below),
    {
        if above {
            Label::Up
        } else if below {
            Label::Down
        } else {
            Label::Flat
        }
    }
}

/// Reversing the direction of a move exchanges its two comparisons with the
/// deadband (`-r > eps` is `r < -eps`). Whenever they do not both hold, as with
/// a non-negative deadband, this turns Up into Down, Down into Up, and keeps
/// Flat, also at the edges `r = eps` and `r = -eps`.
pub proof fn lemma_reversed_move_mirrors_label(above: bool, below: bool)
    requires
        !(above && below),
    ensures
        band_label(below, above) == mirrored(band_label(above, below)),
{
}

} // verus!
