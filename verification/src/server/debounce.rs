//! The debouncer of document changes: a change is held back until the
//! editor has been quiet for a while, or until another document changes.

use vstd::prelude::*;

verus! {

/// The time without a change after which a held change is let through, in
/// milliseconds.
pub const QUIET_MILLIS: u64 = 500;

/// A changed document: its URI and its new text.
pub struct Change {
    pub uri: String,
    pub text: String,
}

/// The mathematical content of a [`Change`].
pub struct ChangeView {
    pub uri: Seq<char>,
    pub text: Seq<char>,
}

impl View for Change {
    type V = ChangeView;

    open spec fn view(&self) -> ChangeView {
        ChangeView { uri: self.uri@, text: self.text@ }
    }
}

/// The mathematical content of an optional change.
pub open spec fn change_view(change: Option<Change>) -> Option<ChangeView> {
    match change {
        Some(c) => Some(c@),
        None => None,
    }
}

/// Holds the last change of a document back.
pub struct Debouncer {
    pending: Option<Change>,
}

impl View for Debouncer {
    type V = Option<ChangeView>;

    closed spec fn view(&self) -> Option<ChangeView> {
        change_view(self.pending)
    }
}

impl Debouncer {
    /// A debouncer that holds nothing.
    pub fn new() -> (debouncer: Self)
        ensures
            debouncer@ is None,
    {
        Debouncer { pending: None }
    }

    /// Takes a change in. It is held from now on. The change that was held
    /// is let through where it is of another document, and dropped where it
    /// is of the same: the new text overrules it.
    pub fn did_change(&mut self, change: Change) -> (through: Option<Change>)
        ensures
            final(self)@ == Some(change@),
            change_view(through) == match old(self)@ {
                Some(held) => if held.uri != change@.uri {
                    Some(held)
                } else {
                    None
                },
                None => None,
            },
    {
        let same = match &self.pending {
            Some(held) => held.uri == change.uri,
            None => true,
        };
        let mut held = Some(change);
        std::mem::swap(&mut self.pending, &mut held);
        if same {
            None
        } else {
            held
        }
    }

    /// Asks for the held change after a wait, `elapsed_millis` after the
    /// last change came in: it is let through where the editor has been
    /// quiet for `QUIET_MILLIS`, and held on otherwise.
    pub fn wake(&mut self, elapsed_millis: u64) -> (through: Option<Change>)
        ensures
            elapsed_millis < QUIET_MILLIS ==> through is None,
            elapsed_millis < QUIET_MILLIS ==> final(self)@ == old(self)@,
            elapsed_millis >= QUIET_MILLIS ==> change_view(through) == old(self)@,
            elapsed_millis >= QUIET_MILLIS ==> final(self)@ is None,
    {
        if elapsed_millis < QUIET_MILLIS {
            None
        } else {
            let mut held = None;
            std::mem::swap(&mut self.pending, &mut held);
            held
        }
    }
}

} // verus!
