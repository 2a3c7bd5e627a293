//! The tabs of the editor, and what a round of the window of a hat does to
//! the hat and to the selection.
use vstd::prelude::*;
use crate::console::Console;
use crate::hats::{has_id, without_element, Hat, HatElement, HatElementId};
use crate::hats_data::HatType;
use crate::text::{decimal, push_decimal};

verus! {

/// What the window of a hat remembers between rounds: the element that the
/// user was asked to confirm the removal of, by its label and identity.
#[derive(Debug)]
pub struct HatTabState {
    pub element_to_remove: Option<(String, HatElementId)>,
}

impl Default for HatTabState {
    fn default() -> (state: HatTabState)
        ensures
            state.element_to_remove is None,
    {
        HatTabState { element_to_remove: None }
    }
}

/// One tab of the editor.
#[derive(Debug)]
pub enum Tab {
    Home { title: String },
    Help { title: String },
    HatElement { hat: Hat, selected_hat_id: Option<HatElementId>, state: HatTabState },
    Console { console: Option<Console>, title: String },
}

/// What a round of the editor found out.
#[derive(Debug)]
pub struct FrameResult {
    pub clicked_rename_hat: bool,
    pub cliked_new_hat: bool,
    pub clicked_open_hat: bool,
    pub clicked_help_tab: bool,
    pub console: Option<Console>,
}

/// What the user did in the list of elements of a hat in one round.
#[derive(Debug, Clone, Copy)]
pub struct HatLeftPanelResponse {
    pub selected_hat_id: Option<HatElementId>,
    pub added_hat_type: Option<HatType>,
    pub removed_hat_id: Option<HatElementId>,
}

impl Default for HatLeftPanelResponse {
    fn default() -> (response: HatLeftPanelResponse)
        ensures
            response.selected_hat_id is None,
            response.added_hat_type is None,
            response.removed_hat_id is None,
    {
        HatLeftPanelResponse { selected_hat_id: None, added_hat_type: None, removed_hat_id: None }
    }
}

impl Tab {
    pub fn new_home_tab(title: String) -> (tab: Tab)
        ensures
            tab == (Tab::Home { title }),
    {
        Tab::Home { title }
    }

    pub fn new_hat_tab(hat: Hat, selected_hat_id: Option<HatElementId>) -> (tab: Tab)
        ensures
            tab matches Tab::HatElement { hat: h, selected_hat_id: s, state } && h == hat && s
                == selected_hat_id && state.element_to_remove is None,
    {
        Tab::HatElement { hat, selected_hat_id, state: HatTabState::default() }
    }

    pub fn new_console_tab(title: String, console: Console) -> (tab: Tab)
        ensures
            tab == (Tab::Console { console: Some(console), title }),
    {
        Tab::Console { console: Some(console), title }
    }

    /// Whether the tab is the window of a hat.
    pub fn is_hat(&self) -> (hat: bool)
        ensures
            hat == (self is HatElement),
    {
        match self {
            Tab::HatElement { .. } => true,
            _ => false,
        }
    }

    /// Whether the tab is the window of the hat in the folder `path`.
    pub fn shows_hat_at(&self, path: &crate::path_utils::HatPath) -> (shows: bool)
        ensures
            shows == (self matches Tab::HatElement { hat, .. } && hat.view_path() == path@),
    {
        match self {
            Tab::HatElement { hat, .. } => hat.path().same_as(path),
            _ => false,
        }
    }

    /// The title of the tab: the name of the hat for the window of a hat.
    pub open spec fn view_title(&self) -> Seq<char> {
        match self {
            Tab::Home { title } => title@,
            Tab::Help { title } => title@,
            Tab::Console { title, .. } => title@,
            Tab::HatElement { hat, .. } => hat.view_name(),
        }
    }

    pub fn title(&self) -> (title: &str)
        ensures
            title@ == self.view_title(),
    {
        match self {
            Tab::Home { title } => title.as_str(),
            Tab::Help { title } => title.as_str(),
            Tab::Console { title, .. } => title.as_str(),
            Tab::HatElement { hat, .. } => hat.name(),
        }
    }

    /// The key of the text that is shown while the pointer rests on the
    /// button of the tab.
    pub fn hover_text_key(&self) -> (key: &'static str)
        ensures
            key@ == match self {
                Tab::Home { .. } => "19"@,
                Tab::Help { .. } => "20"@,
                Tab::HatElement { .. } => "21"@,
                Tab::Console { .. } => "40"@,
            },
    {
        match self {
            Tab::Home { .. } => "19",
            Tab::Help { .. } => "20",
            Tab::HatElement { .. } => "21",
            Tab::Console { .. } => "40",
        }
    }

    /// Takes the console out of a console tab that is closed, so that it can
    /// be shown again later. Other tabs have none.
    pub fn on_close(&mut self) -> (console: Option<Console>)
        ensures
            *old(self) matches Tab::Console { console: held, title } ==> console == held
                && *final(self) == (Tab::Console { console: None, title }),
            !(*old(self) is Console) ==> console is None && *final(self) == *old(self),
    {
        match self {
            Tab::Console { console, .. } => console.take(),
            _ => None,
        }
    }
}

/// The selection after a round of the list of elements: an element that was
/// picked is selected, and an element that was removed is selected no
/// longer.
pub open spec fn selection_after(
    selected: Option<HatElementId>,
    response: HatLeftPanelResponse,
) -> Option<HatElementId> {
    let picked = match response.selected_hat_id {
        Some(id) => Some(id),
        None => selected,
    };
    match response.removed_hat_id {
        Some(removed) => if picked == Some(removed) {
            None
        } else {
            picked
        },
        None => picked,
    }
}

/// Does to a hat and to the selection what the user did in the list of
/// elements: picks, and removes.
pub fn apply_panel_response(
    hat: &mut Hat,
    selected_hat_id: &mut Option<HatElementId>,
    response: &HatLeftPanelResponse,
)
    ensures
        *final(selected_hat_id) == selection_after(*old(selected_hat_id), *response),
        final(hat).view_elements() == match response.removed_hat_id {
            Some(removed) => without_element(old(hat).view_elements(), removed),
            None => old(hat).view_elements(),
        },
        final(hat).view_path() == old(hat).view_path(),
        final(hat).view_name() == old(hat).view_name(),
        final(hat).view_name_set_by_user() == old(hat).view_name_set_by_user(),
        final(hat).view_id() == old(hat).view_id(),
{
    if let Some(id) = response.selected_hat_id {
        *selected_hat_id = Some(id);
    }
    if let Some(remove_id) = response.removed_hat_id {
        hat.remove_element(remove_id);
        if let Some(selected_id) = *selected_hat_id {
            if selected_id == remove_id {
                *selected_hat_id = None;
            }
        }
    }
}

/// The element that the window of a hat shows: the selected one, or, where
/// none is selected, the first element of the hat, which is then selected.
/// An empty hat without a selection shows none.
pub fn shown_element(hat: &Hat, selected_hat_id: &mut Option<HatElementId>) -> (shown: Option<
    HatElementId,
>)
    ensures
        shown == match *old(selected_hat_id) {
            Some(id) => Some(id),
            None => if hat.view_elements().len() == 0 {
                None
            } else {
                Some(hat.view_elements()[0].view_id())
            },
        },
        *final(selected_hat_id) == shown,
{
    match *selected_hat_id {
        Some(id) => Some(id),
        None => {
            if hat.is_empty() {
                return None;
            }
            let first = hat.elements()[0].id();
            *selected_hat_id = Some(first);
            Some(first)
        },
    }
}

/// Whether the selection at place `at` picks an element of the hat: it is
/// not empty, and its first identity is that of an element.
pub open spec fn picks(elements: Seq<HatElement>, selections: Seq<Vec<u32>>, at: int) -> bool {
    &&& 0 <= at < selections.len()
    &&& selections[at]@.len() > 0
    &&& has_id(elements, HatElementId(selections[at]@[0]))
}

/// The element that the user picked in the tree of elements: `selections`
/// holds the identities of each selection that the tree reported, in order,
/// and the first identity of the first selection that picks an element of
/// the hat counts.
pub fn picked_element(hat: &Hat, selections: &Vec<Vec<u32>>) -> (picked: Option<HatElementId>)
    ensures
        picked is Some <==> exists|at: int| picks(hat.view_elements(), selections@, at),
        picked matches Some(id) ==> exists|at: int|
            #![auto]
            picks(hat.view_elements(), selections@, at) && id.0 == selections@[at]@[0]
                && forall|k: int| 0 <= k < at ==> !picks(hat.view_elements(), selections@, k),
{
    let mut i: usize = 0;
    while i < selections.len()
        invariant
            i <= selections@.len(),
            forall|k: int| 0 <= k < i ==> !picks(hat.view_elements(), selections@, k),
        decreases selections.len() - i,
    {
        let ids = &selections[i];
        if ids.len() > 0 && !hat.is_empty() {
            let id = HatElementId(ids[0]);
            if hat.has_element_with_id(id) {
                assert(picks(hat.view_elements(), selections@, i as int));
                return Some(id);
            }
        }
        i += 1;
    }
    None
}

/// The name of a new window of a hat: the word for a hat, a space, and the
/// number of the window.
pub fn new_hat_tab_name(word: &str, hat_tabs_count: usize) -> (name: String)
    ensures
        name@ == word@ + seq![' '] + decimal(hat_tabs_count as nat),
{
    let mut name = String::from_str(word);
    name.push(' ');
    push_decimal(&mut name, hat_tabs_count as u64);
    name
}

} // verus!
