//! The three board sizes that are offered by name.

use crate::board::size_fault;
use crate::grid::BoardSize;
use vstd::prelude::*;

verus! {

/// A board size that is offered by name.
#[derive(Clone, Copy, Debug, PartialEq, Eq, Structural)]
pub enum Preset {
    /// 9 by 9 cells with 10 mines.
    Small,
    /// 16 by 16 cells with 40 mines.
    Medium,
    /// 30 by 16 cells with 99 mines.
    Large,
}

/// The size that a preset stands for.
pub open spec fn preset_size(preset: Preset) -> BoardSize {
    match preset {
        Preset::Small => (9, 9, 10),
        Preset::Medium => (16, 16, 40),
        Preset::Large => (30, 16, 99),
    }
}

impl Preset {
    /// The size that the preset stands for. It is a size that a board can
    /// be made with.
    pub fn board_size(self) -> (size: BoardSize)
        ensures
            size == preset_size(self),
            size_fault(size) is None,
    {
        match self {
            Preset::Small => (9, 9, 10),
            Preset::Medium => (16, 16, 40),
            Preset::Large => (30, 16, 99),
        }
    }
}

} // verus!
