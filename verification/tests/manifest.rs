use streamdeck_emotes::action::{Action, Emote};
use streamdeck_emotes::action_map::ActionMap;
use streamdeck_emotes::grid::{DeviceModel, Position};
use streamdeck_emotes::manifest::ProfileManifest;

fn button(name: &str) -> Action {
    Emote { name: name.to_owned(), url: String::new() }.to_action("", true, None)
}

fn title(action: &Action) -> &str {
    &action.states[0].title
}

#[test]
fn new_page_has_no_buttons_and_the_stock_version() {
    let page = ProfileManifest::new(DeviceModel::XL, "device".to_owned(), "name".to_owned());
    assert_eq!(page.actions.len(), 0);
    assert_eq!(page.device_model, DeviceModel::XL);
    assert_eq!(page.device_uuid, "device");
    assert_eq!(page.name, "name");
    assert_eq!(page.version, "1.0");
}

#[test]
fn slots_are_written_row_by_row() {
    let mut page = ProfileManifest::new(DeviceModel::Standard, String::new(), String::new());
    page.set_actions(vec![
        None,
        Some(button("a")),
        Some(button("b")),
        Some(button("c")),
        Some(button("d")),
        None,
        Some(button("e")),
    ]);
    assert_eq!(page.actions.len(), 5);
    assert!(page.actions.get(Position::new(0, 0)).is_none());
    assert_eq!(title(page.actions.get(Position::new(1, 0)).unwrap()), "a");
    assert_eq!(title(page.actions.get(Position::new(4, 0)).unwrap()), "d");
    assert!(page.actions.get(Position::new(0, 1)).is_none());
    assert_eq!(title(page.actions.get(Position::new(1, 1)).unwrap()), "e");
}

#[test]
fn width_of_the_grid_decides_the_rows() {
    let mut page = ProfileManifest::new(DeviceModel::Mini, String::new(), String::new());
    page.set_actions(vec![
        Some(button("a")),
        Some(button("b")),
        Some(button("c")),
        Some(button("d")),
    ]);
    assert_eq!(title(page.actions.get(Position::new(0, 0)).unwrap()), "a");
    assert_eq!(title(page.actions.get(Position::new(2, 0)).unwrap()), "c");
    assert_eq!(title(page.actions.get(Position::new(0, 1)).unwrap()), "d");
    let mut page = ProfileManifest::new(DeviceModel::XL, String::new(), String::new());
    page.set_actions((0..9).map(|i| Some(button(&i.to_string()))).collect());
    assert_eq!(title(page.actions.get(Position::new(3, 0)).unwrap()), "3");
    assert_eq!(title(page.actions.get(Position::new(0, 2)).unwrap()), "8");
}

#[test]
fn empty_slot_clears_its_cell_and_cells_beyond_the_slots_stay() {
    let mut page = ProfileManifest::new(DeviceModel::Standard, String::new(), String::new());
    page.actions.insert(Position::new(0, 0), button("old0"));
    page.actions.insert(Position::new(1, 0), button("old1"));
    page.actions.insert(Position::new(2, 0), button("old2"));
    page.actions.insert(Position::new(4, 2), button("old14"));
    page.set_actions(vec![None, Some(button("new1"))]);
    assert!(page.actions.get(Position::new(0, 0)).is_none());
    assert_eq!(title(page.actions.get(Position::new(1, 0)).unwrap()), "new1");
    assert_eq!(title(page.actions.get(Position::new(2, 0)).unwrap()), "old2");
    assert_eq!(title(page.actions.get(Position::new(4, 2)).unwrap()), "old14");
    assert_eq!(page.actions.len(), 3);
    page.set_actions(Vec::new());
    assert_eq!(page.actions.len(), 3);
}

#[test]
fn slot_beyond_a_byte_is_placed_as_its_remainder() {
    let mut page = ProfileManifest::new(DeviceModel::Mini, String::new(), String::new());
    let mut slots: Vec<Option<Action>> = (0..255).map(|_| None).collect();
    slots.insert(0, Some(button("first")));
    slots.push(Some(button("again")));
    slots.push(None);
    slots.push(Some(button("third")));
    page.set_actions(slots);
    assert_eq!(page.actions.len(), 2);
    assert_eq!(title(page.actions.get(Position::new(0, 0)).unwrap()), "again");
    assert!(page.actions.get(Position::new(1, 0)).is_none());
    assert_eq!(title(page.actions.get(Position::new(2, 0)).unwrap()), "third");
    let mut page = ProfileManifest::new(DeviceModel::Mini, String::new(), String::new());
    let mut slots: Vec<Option<Action>> = (0..255).map(|_| None).collect();
    slots.push(Some(button("last")));
    page.set_actions(slots);
    assert_eq!(title(page.actions.get(Position::new(0, 85)).unwrap()), "last");
}

#[test]
fn map_holds_one_button_per_position() {
    let mut map = ActionMap::new();
    assert_eq!(map.len(), 0);
    assert!(map.positions().is_empty());
    map.insert(Position::new(1, 1), button("a"));
    map.insert(Position::new(2, 1), button("b"));
    map.insert(Position::new(1, 1), button("c"));
    assert_eq!(map.len(), 2);
    assert_eq!(title(map.get(Position::new(1, 1)).unwrap()), "c");
    assert_eq!(title(map.get(Position::new(2, 1)).unwrap()), "b");
    assert!(map.contains_key(Position::new(2, 1)));
    assert!(!map.contains_key(Position::new(1, 2)));
    let mut positions = map.positions();
    positions.sort_by_key(|p| (p.x, p.y));
    assert_eq!(positions, vec![Position::new(1, 1), Position::new(2, 1)]);
    map.remove(Position::new(1, 1));
    map.remove(Position::new(9, 9));
    assert_eq!(map.len(), 1);
    assert!(map.get(Position::new(1, 1)).is_none());
    assert_eq!(map.positions(), vec![Position::new(2, 1)]);
}
