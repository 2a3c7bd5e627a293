use hpp_editor::console::Console;
use hpp_editor::hats::{Hat, HatElement, HatElementId};
use hpp_editor::hats_data::{HatElementData, HatType};
use hpp_editor::ids::IdSource;
use hpp_editor::image::{Bitmap, Image};
use hpp_editor::path_utils::HatPath;
use hpp_editor::tabs::{
    apply_panel_response, new_hat_tab_name, picked_element, shown_element, HatLeftPanelResponse,
    HatTabState, Tab,
};

fn hat_with(kinds: &[HatType], ids: &mut IdSource) -> Hat {
    let mut hat = Hat::new(&HatPath::parse("/h"), "my hat", ids);
    for kind in kinds {
        let image = Image::Bitmap(Bitmap::from_bytes(0, 0, vec![]).unwrap());
        hat.add_element(
            HatElement::load(HatElementData::default_of(*kind).unwrap(), image, ids).unwrap(),
        );
    }
    hat
}

#[test]
fn tabs_have_titles_and_hints() {
    let mut ids = IdSource::new();
    let home = Tab::new_home_tab("Home".to_string());
    assert_eq!(home.title(), "Home");
    assert_eq!(home.hover_text_key(), "19");
    let help = Tab::Help { title: "Help".to_string() };
    assert_eq!(help.hover_text_key(), "20");
    let hat = Tab::new_hat_tab(hat_with(&[], &mut ids), Some(HatElementId(3)));
    assert_eq!(hat.title(), "my hat");
    assert_eq!(hat.hover_text_key(), "21");
    match &hat {
        Tab::HatElement { selected_hat_id, state, .. } => {
            assert_eq!(*selected_hat_id, Some(HatElementId(3)));
            assert!(state.element_to_remove.is_none());
        }
        _ => panic!("not the window of a hat"),
    }
    let mut console = Tab::new_console_tab("Console".to_string(), Console::new());
    assert_eq!(console.title(), "Console");
    assert_eq!(console.hover_text_key(), "40");
    assert!(console.on_close().is_some());
    assert!(console.on_close().is_none());
    let mut home = home;
    assert!(home.on_close().is_none());
    assert!(HatTabState::default().element_to_remove.is_none());
}

#[test]
fn removing_the_selected_element_clears_the_selection() {
    let mut ids = IdSource::new();
    let mut hat = hat_with(&[HatType::Wearable, HatType::Wings], &mut ids);
    let first = hat.elements()[0].id();
    let second = hat.elements()[1].id();
    let mut selected = Some(first);

    let pick = HatLeftPanelResponse { selected_hat_id: Some(second), ..Default::default() };
    apply_panel_response(&mut hat, &mut selected, &pick);
    assert_eq!(selected, Some(second));
    assert_eq!(hat.elements().len(), 2);

    let remove_other = HatLeftPanelResponse { removed_hat_id: Some(first), ..Default::default() };
    apply_panel_response(&mut hat, &mut selected, &remove_other);
    assert_eq!(selected, Some(second));
    assert_eq!(hat.elements().len(), 1);

    let remove_selected = HatLeftPanelResponse { removed_hat_id: Some(second), ..Default::default() };
    apply_panel_response(&mut hat, &mut selected, &remove_selected);
    assert_eq!(selected, None);
    assert!(hat.is_empty());

    apply_panel_response(&mut hat, &mut selected, &HatLeftPanelResponse::default());
    assert_eq!(selected, None);
}

#[test]
fn without_a_selection_the_first_element_is_shown() {
    let mut ids = IdSource::new();
    let hat = hat_with(&[HatType::Wings, HatType::Wearable], &mut ids);
    let first = hat.elements()[0].id();
    let mut selected = None;
    assert_eq!(shown_element(&hat, &mut selected), Some(first));
    assert_eq!(selected, Some(first));
    let mut selected = Some(HatElementId(77));
    assert_eq!(shown_element(&hat, &mut selected), Some(HatElementId(77)));
    let empty = hat_with(&[], &mut ids);
    let mut selected = None;
    assert_eq!(shown_element(&empty, &mut selected), None);
    assert_eq!(selected, None);
}

#[test]
fn the_first_selection_of_an_element_is_picked() {
    let mut ids = IdSource::new();
    let hat = hat_with(&[HatType::Wings, HatType::Wearable], &mut ids);
    let first = hat.elements()[0].id();
    let second = hat.elements()[1].id();
    assert_eq!(picked_element(&hat, &vec![]), None);
    assert_eq!(picked_element(&hat, &vec![vec![], vec![0], vec![99, first.0]]), None);
    assert_eq!(
        picked_element(&hat, &vec![vec![0], vec![second.0, first.0], vec![first.0]]),
        Some(second)
    );
    let empty = hat_with(&[], &mut ids);
    assert_eq!(picked_element(&empty, &vec![vec![first.0]]), None);
}

#[test]
fn new_windows_are_numbered() {
    assert_eq!(new_hat_tab_name("Hat", 1), "Hat 1");
    assert_eq!(new_hat_tab_name("Шляпа", 120), "Шляпа 120");
    assert_eq!(new_hat_tab_name("", 0), " 0");
}

#[test]
fn a_tab_knows_the_hat_that_it_shows() {
    let mut ids = IdSource::new();
    let tab = Tab::new_hat_tab(hat_with(&[], &mut ids), None);
    assert!(tab.is_hat());
    assert!(tab.shows_hat_at(&HatPath::parse("/h")));
    assert!(tab.shows_hat_at(&HatPath::parse("/h/")));
    assert!(!tab.shows_hat_at(&HatPath::parse("/other")));
    let home = Tab::new_home_tab("Home".to_string());
    assert!(!home.is_hat());
    assert!(!home.shows_hat_at(&HatPath::parse("/h")));
}
