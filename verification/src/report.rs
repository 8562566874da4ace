//! What a run found.

use crate::diff::{divergence_views, note_views, Divergence, DivergenceView, Note, NoteView, Outcome};
use vstd::prelude::*;

verus! {

/// The divergences and notes that a run recorded, in the order in which it
/// came upon them.
#[derive(Clone, Debug, PartialEq, Eq)]
pub struct Report {
    pub divergences: Vec<Divergence>,
    pub notes: Vec<Note>,
}

impl Report {
    /// The views of the divergences.
    pub open spec fn divergences_view(&self) -> Seq<DivergenceView> {
        divergence_views(self.divergences@)
    }

    /// The views of the notes.
    pub open spec fn notes_view(&self) -> Seq<NoteView> {
        note_views(self.notes@)
    }

    /// How a run with this report ended: clean if and only if it holds no
    /// divergence.
    pub open spec fn outcome_spec(&self) -> Outcome {
        if self.divergences@.len() == 0 {
            Outcome::Clean
        } else {
            Outcome::Divergent
        }
    }

    /// A report with nothing in it.
    pub fn new() -> (r: Report)
        ensures
            r.divergences@.len() == 0,
            r.notes@.len() == 0,
            r.outcome_spec() == Outcome::Clean,
    {
        Report { divergences: Vec::new(), notes: Vec::new() }
    }

    /// How the run ended.
    pub fn outcome(&self) -> (r: Outcome)
        ensures
            r == self.outcome_spec(),
    {
        if self.divergences.len() == 0 {
            Outcome::Clean
        } else {
            Outcome::Divergent
        }
    }

    /// The status that the process ends with: 0 after a clean run, 1 after a
    /// divergent one.
    pub fn exit_code(&self) -> (r: u8)
        ensures
            r == (if self.outcome_spec() == Outcome::Clean {
                0u8
            } else {
                1u8
            }),
    {
        match self.outcome() {
            Outcome::Clean => 0,
            Outcome::Divergent => 1,
        }
    }

    /// Adds divergences and notes at the end of the report.
    pub fn record(&mut self, divergences: Vec<Divergence>, notes: Vec<Note>)
        ensures
            final(self).divergences@ == old(self).divergences@ + divergences@,
            final(self).notes@ == old(self).notes@ + notes@,
            final(self).divergences_view() == old(self).divergences_view() + divergence_views(
                divergences@,
            ),
            final(self).notes_view() == old(self).notes_view() + note_views(notes@),
    {
        let ghost new_divergences = divergences@;
        let ghost new_notes = notes@;
        let mut divergences = divergences;
        let mut notes = notes;
        self.divergences.append(&mut divergences);
        self.notes.append(&mut notes);
        proof {
            assert(self.divergences_view() =~= old(self).divergences_view() + divergence_views(
                new_divergences,
            ));
            assert(self.notes_view() =~= old(self).notes_view() + note_views(new_notes));
        }
    }
}

} // verus!
