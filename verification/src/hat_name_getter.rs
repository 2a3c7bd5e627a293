//! The dialog that renames a hat, as a state machine.
use vstd::prelude::*;

verus! {

/// What confirming the dialog is to do.
#[derive(Debug, Clone, Copy, PartialEq, Eq, Structural)]
pub enum HatNameGetterAction {
    SetNameAndSave,
    SetName,
}

#[derive(Debug, Clone, Copy, PartialEq, Eq, Structural)]
enum HatNameGetterState {
    Closed,
    Opened(HatNameGetterAction),
}

/// A dialog that renames a hat.
#[derive(Debug)]
pub struct HatNameGetter {
    state: HatNameGetterState,
}

impl Default for HatNameGetter {
    fn default() -> (getter: HatNameGetter)
        ensures
            getter.opened_for() is None,
    {
        HatNameGetter { state: HatNameGetterState::Closed }
    }
}

impl HatNameGetter {
    /// What the dialog was opened for, if it is open.
    pub closed spec fn opened_for(&self) -> Option<HatNameGetterAction> {
        match self.state {
            HatNameGetterState::Closed => None,
            HatNameGetterState::Opened(action) => Some(action),
        }
    }

    /// A closed dialog.
    pub fn new() -> (getter: HatNameGetter)
        ensures
            getter.opened_for() is None,
    {
        HatNameGetter { state: HatNameGetterState::Closed }
    }

    /// Opens the dialog. A dialog that is open stays as it is.
    pub fn open(&mut self, action: HatNameGetterAction)
        ensures
            final(self).opened_for() == if old(self).opened_for() is None {
                Some(action)
            } else {
                old(self).opened_for()
            },
    {
        match self.state {
            HatNameGetterState::Closed => {
                self.state = HatNameGetterState::Opened(action);
            },
            _ => {},
        }
    }

    /// What the dialog was opened for, if it is open.
    pub fn action(&self) -> (action: Option<HatNameGetterAction>)
        ensures
            action == self.opened_for(),
    {
        match self.state {
            HatNameGetterState::Closed => None,
            HatNameGetterState::Opened(action) => Some(action),
        }
    }

    /// Whether the dialog is shown in this round: it is open, and there is
    /// a hat to rename.
    pub fn shown(&self, has_hat: bool) -> (shown: bool)
        ensures
            shown == (self.opened_for() is Some && has_hat),
    {
        has_hat && self.action().is_some()
    }

    /// One round of the dialog. A dialog that is not shown stays as it is.
    /// Dismissing closes it and wins over confirming, and confirming closes
    /// it. A dialog that was opened to save as well cannot be confirmed.
    pub fn update(&mut self, has_hat: bool, dismissed: bool, confirmed: bool)
        requires
            !(old(self).opened_for() == Some(HatNameGetterAction::SetNameAndSave) && has_hat
                && !dismissed && confirmed),
        ensures
            final(self).opened_for() == if old(self).opened_for() is Some && has_hat && (dismissed
                || confirmed) {
                None
            } else {
                old(self).opened_for()
            },
    {
        if !self.shown(has_hat) {
            return;
        }
        if dismissed {
            self.state = HatNameGetterState::Closed;
            return;
        }
        if confirmed {
            self.state = HatNameGetterState::Closed;
        }
    }
}

} // verus!
