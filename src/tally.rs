//! Counts of the labels written during a run.
use vstd::prelude::*;
use crate::label::Label;

verus! {

/// Number of rows written, and of each label among them.
pub struct LabelCounts {
    pub total: u64,
    pub down: u64,
    pub flat: u64,
    pub up: u64,
}

impl LabelCounts {
    /// Every written row carries exactly one label.
    pub open spec fn wf(&self) -> bool {
        self.total == self.down + self.flat + self.up
    }

    /// No row written yet.
    pub fn new() -> (r: Self)
        ensures
            r.wf(),
            r.total == 0 && r.down == 0 && r.flat == 0 && r.up == 0,
    {
        LabelCounts { total: 0, down: 0, flat: 0, up: 0 }
    }

    /// Counts one more written row with label `l`.
    pub fn record(&mut self, l: Label)
        requires
            old(self).wf(),
            old(self).total < u64::MAX,
        ensures
            final(self).wf(),
            final(self).total == old(self).total + 1,
            final(self).down == old(self).down + if l == Label::Down { 1int } else { 0int },
            final(self).flat == old(self).flat + if l == Label::Flat { 1int } else { 0int },
            final(self).up == old(self).up + if l == Label::Up { 1int } else { 0int },
    {
        self.total = self.total + 1;
        match l {
            Label::Down => self.down = self.down + 1,
            Label::Flat => self.flat = self.flat + 1,
            Label::Up => self.up = self.up + 1,
        }
    }
}

} // verus!
