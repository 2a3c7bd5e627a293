//! The dialog that asks for a name, as a state machine: it is closed or
//! open, and while it is open it holds the text typed so far and a value
//! that is handed back with the name.
use vstd::prelude::*;

verus! {

/// How a dialog ended.
#[derive(Debug)]
pub enum NameGetterResult<T> {
    /// It was dismissed.
    Closed,
    /// The name was confirmed; the value is the one given at opening.
    Confirmed(String, T),
}

#[derive(Debug)]
enum NameGetterState<T> {
    Closed,
    Opened { message: String, buffer: String, data: T },
}

/// What a dialog is, as a mathematical value.
pub enum NameGetterView<T> {
    Closed,
    Opened { message: Seq<char>, buffer: Seq<char>, data: T },
}

/// The dialog after one round: an open dialog closes when one of its
/// buttons was pressed, and stays as it is otherwise.
pub open spec fn next_state<T>(state: NameGetterView<T>, dismissed: bool, confirmed: bool)
    -> NameGetterView<T> {
    if state is Opened && (dismissed || confirmed) {
        NameGetterView::Closed
    } else {
        state
    }
}

/// A dialog that asks for a name.
#[derive(Debug)]
pub struct NameGetter<T> {
    state: NameGetterState<T>,
}

impl<T> View for NameGetter<T> {
    type V = NameGetterView<T>;

    closed spec fn view(&self) -> NameGetterView<T> {
        match self.state {
            NameGetterState::Closed => NameGetterView::Closed,
            NameGetterState::Opened { message, buffer, data } => NameGetterView::Opened {
                message: message@,
                buffer: buffer@,
                data,
            },
        }
    }
}

impl<T> Default for NameGetter<T> {
    fn default() -> (getter: NameGetter<T>)
        ensures
            getter@ is Closed,
    {
        NameGetter { state: NameGetterState::Closed }
    }
}

impl<T> NameGetter<T> {
    /// A closed dialog.
    pub fn new() -> (getter: NameGetter<T>)
        ensures
            getter@ is Closed,
    {
        NameGetter { state: NameGetterState::Closed }
    }

    /// Opens the dialog with an empty text. A dialog that is open stays as
    /// it is.
    pub fn open(&mut self, message: String, data: T)
        ensures
            old(self)@ is Closed ==> final(self)@ == (NameGetterView::Opened {
                message: message@,
                buffer: Seq::<char>::empty(),
                data,
            }),
            old(self)@ is Opened ==> final(self)@ == old(self)@,
    {
        match self.state {
            NameGetterState::Closed => {
                self.state = NameGetterState::Opened { message, buffer: String::new(), data };
            },
            _ => {},
        }
    }

    pub fn is_open(&self) -> (open: bool)
        ensures
            open == (self@ is Opened),
    {
        match self.state {
            NameGetterState::Closed => false,
            _ => true,
        }
    }

    /// The message of an open dialog.
    pub fn message(&self) -> (message: Option<&str>)
        ensures
            message is Some <==> self@ is Opened,
            message matches Some(m) ==> m@ == self@->message,
    {
        match &self.state {
            NameGetterState::Closed => None,
            NameGetterState::Opened { message, .. } => Some(message.as_str()),
        }
    }

    /// The text typed so far into an open dialog.
    pub fn buffer(&self) -> (buffer: Option<&str>)
        ensures
            buffer is Some <==> self@ is Opened,
            buffer matches Some(b) ==> b@ == self@->buffer,
    {
        match &self.state {
            NameGetterState::Closed => None,
            NameGetterState::Opened { buffer, .. } => Some(buffer.as_str()),
        }
    }

    /// Replaces the text typed so far. A closed dialog has none and stays as
    /// it is.
    pub fn set_buffer(&mut self, text: String)
        ensures
            old(self)@ is Closed ==> final(self)@ == old(self)@,
            old(self)@ matches NameGetterView::Opened { message, buffer, data } ==> final(self)@
                == (NameGetterView::Opened { message, buffer: text@, data }),
    {
        let mut state = NameGetterState::Closed;
        std::mem::swap(&mut self.state, &mut state);
        self.state = match state {
            NameGetterState::Closed => NameGetterState::Closed,
            NameGetterState::Opened { message, buffer, data } => NameGetterState::Opened {
                message,
                buffer: text,
                data,
            },
        };
    }

    /// One round of the dialog: what it does when its buttons were, or were
    /// not, pressed. A closed dialog does nothing. Dismissing closes the
    /// dialog and wins over confirming; confirming closes it and hands back
    /// the text and the value; otherwise the dialog stays open.
    pub fn update(&mut self, dismissed: bool, confirmed: bool) -> (result: Option<NameGetterResult<T>>)
        ensures
            final(self)@ == next_state(old(self)@, dismissed, confirmed),
            result is Some <==> old(self)@ is Opened && (dismissed || confirmed),
            old(self)@ is Opened && dismissed ==> result == Some(NameGetterResult::<T>::Closed),
            old(self)@ is Opened && !dismissed && confirmed ==> (result matches Some(
                NameGetterResult::Confirmed(name, value),
            ) && name@ == old(self)@->buffer && value == old(self)@->data),
    {
        if !self.is_open() {
            return None;
        }
        if dismissed {
            self.state = NameGetterState::Closed;
            return Some(NameGetterResult::Closed);
        }
        if confirmed {
            let mut state = NameGetterState::Closed;
            std::mem::swap(&mut self.state, &mut state);
            return match state {
                NameGetterState::Opened { buffer, data, .. } => Some(
                    NameGetterResult::Confirmed(buffer, data),
                ),
                NameGetterState::Closed => None,
            };
        }
        None
    }
}

} // verus!
