use bytes::Bytes;
use streamdeck_emotes::action::{Action, Emote, EmoteImage, Settings};
use streamdeck_emotes::grid::{DeviceModel, Position};
use streamdeck_emotes::ident::uuid_v5;
use streamdeck_emotes::layout::{lay_out, link_pages, Layout, ProfilesWithImages};
use uuid::Uuid;

fn images(n: usize) -> Vec<EmoteImage> {
    (0..n)
        .map(|i| EmoteImage {
            emote: Emote {
                name: format!("emote{}", i),
                url: format!("http://example.com/{}.png", i),
            },
            bytes: Bytes::from(vec![i as u8, 1, 2]),
        })
        .collect()
}

fn profiles(n: usize, model: DeviceModel) -> ProfilesWithImages {
    ProfilesWithImages::new(
        uuid_v5("Emotes", 0),
        model,
        "@(1)[4057/128/DL16K1A71331]".to_owned(),
        "Emotes".to_owned(),
        images(n),
        "pomu",
        false,
        Bytes::from_static(b"back"),
        Bytes::from_static(b"forward"),
    )
}

fn pasted_text(action: &Action) -> &str {
    match &action.settings {
        Settings::Text { pasted_text, .. } => pasted_text,
        other => panic!("not a content button: {:?}", other),
    }
}

#[test]
fn no_items_give_no_pages() {
    for model in [DeviceModel::Standard, DeviceModel::XL, DeviceModel::Mini] {
        assert_eq!(profiles(0, model).manifests.len(), 0);
    }
}

#[test]
fn page_count_is_items_over_usable_cells_rounded_up() {
    for model in [DeviceModel::Standard, DeviceModel::XL, DeviceModel::Mini] {
        let (width, height) = model.size();
        let per_page = (width as usize - 1) * height as usize;
        for n in 0..=60 {
            let pages = profiles(n, model).manifests;
            assert_eq!(pages.len(), (n + per_page - 1) / per_page, "{} items", n);
            let buttons: usize = pages.iter().map(|(_, m)| m.actions.len()).sum();
            let links = if pages.is_empty() { 0 } else { 2 * (pages.len() - 1) };
            assert_eq!(buttons, n + links);
        }
    }
}

#[test]
fn standard_page_holds_twelve_items() {
    assert_eq!(profiles(12, DeviceModel::Standard).manifests.len(), 1);
    assert_eq!(profiles(13, DeviceModel::Standard).manifests.len(), 2);
    assert_eq!(profiles(24, DeviceModel::XL).manifests.len(), 1);
    assert_eq!(profiles(25, DeviceModel::XL).manifests.len(), 2);
    assert_eq!(profiles(4, DeviceModel::Mini).manifests.len(), 1);
    assert_eq!(profiles(5, DeviceModel::Mini).manifests.len(), 2);
}

#[test]
fn twenty_items_on_a_standard_panel_take_two_linked_pages() {
    let root = uuid_v5("Emotes", 0);
    let pages = profiles(20, DeviceModel::Standard).manifests;
    assert_eq!(pages.len(), 2);
    assert_eq!(pages[0].0, root);
    assert_eq!(pages[1].0, uuid_v5("Emotes", 1));

    let first = &pages[0].1;
    assert!(first.actions.get(Position::new(0, 0)).is_none());
    let forward = first.actions.get(Position::new(0, 2)).expect("forward button");
    assert_eq!(forward.name, "Create Folder");
    assert_eq!(forward.states[0].title, "Next");
    assert_eq!(forward.image.as_deref(), Some(&b"forward"[..]));
    match forward.settings {
        Settings::OpenChild { profile_uuid } => assert_eq!(profile_uuid, pages[1].0),
        ref other => panic!("not a forward button: {:?}", other),
    }
    assert_eq!(first.actions.len(), 13);

    let second = &pages[1].1;
    let back = second.actions.get(Position::new(0, 0)).expect("back button");
    assert_eq!(back.name, "Open Folder");
    assert_eq!(back.states[0].title, "Back");
    assert_eq!(back.image.as_deref(), Some(&b"back"[..]));
    assert!(matches!(back.settings, Settings::BackToParent {}));
    assert!(second.actions.get(Position::new(0, 2)).is_none());
    assert_eq!(second.actions.len(), 9);
}

#[test]
fn items_fill_rows_from_column_one() {
    let pages = profiles(20, DeviceModel::Standard).manifests;
    let first = &pages[0].1;
    let at = |x: u8, y: u8| pasted_text(first.actions.get(Position::new(x, y)).unwrap()).to_owned();
    assert_eq!(at(1, 0), ":_pomuEmote0:");
    assert_eq!(at(4, 0), ":_pomuEmote3:");
    assert_eq!(at(1, 1), ":_pomuEmote4:");
    assert_eq!(at(4, 2), ":_pomuEmote11:");
    assert!(first.actions.get(Position::new(0, 1)).is_none());
    let second = &pages[1].1;
    let item = second.actions.get(Position::new(1, 0)).unwrap();
    assert_eq!(pasted_text(item), ":_pomuEmote12:");
    assert_eq!(item.image.as_deref(), Some(&[12u8, 1, 2][..]));
    assert_eq!(item.name, "Text");
    assert_eq!(item.state, 0);
    assert_eq!(item.states.len(), 1);
    assert_eq!(item.states[0].title, "");
    assert_eq!(item.states[0].image, "state0.png");
    let last = second.actions.get(Position::new(4, 1)).unwrap();
    assert_eq!(pasted_text(last), ":_pomuEmote19:");
    assert!(second.actions.get(Position::new(1, 2)).is_none());
}

#[test]
fn every_page_carries_the_profile_fields() {
    let pages = profiles(30, DeviceModel::Mini).manifests;
    assert_eq!(pages.len(), 8);
    for (index, (id, manifest)) in pages.iter().enumerate() {
        if index > 0 {
            assert_eq!(*id, uuid_v5("Emotes", index));
        }
        assert_eq!(manifest.device_model, DeviceModel::Mini);
        assert_eq!(manifest.device_uuid, "@(1)[4057/128/DL16K1A71331]");
        assert_eq!(manifest.name, "Emotes");
        assert_eq!(manifest.version, "1.0");
        for position in manifest.actions.positions() {
            assert!(position.x < 3 && position.y < 2);
        }
    }
}

#[test]
fn chain_on_every_model_is_complete() {
    for model in [DeviceModel::Standard, DeviceModel::XL, DeviceModel::Mini] {
        let (_, height) = model.size();
        let pages = profiles(70, model).manifests;
        assert!(pages.len() > 1);
        for (index, (_, manifest)) in pages.iter().enumerate() {
            let back = manifest.actions.get(Position::new(0, 0));
            let forward = manifest.actions.get(Position::new(0, height - 1));
            assert_eq!(back.is_some(), index > 0);
            assert_eq!(forward.is_some(), index + 1 < pages.len());
            if let Some(action) = forward {
                match action.settings {
                    Settings::OpenChild { profile_uuid } => {
                        assert_eq!(profile_uuid, pages[index + 1].0)
                    }
                    ref other => panic!("not a forward button: {:?}", other),
                }
            }
        }
    }
}

#[test]
fn root_identifier_is_taken_as_given() {
    let root = Uuid::parse_str("AC20BCF3-0A7C-4243-BB74-5C0DC5681BA5").unwrap();
    let pages = ProfilesWithImages::new(
        root,
        DeviceModel::Standard,
        String::new(),
        "Emotes".to_owned(),
        images(13),
        "",
        true,
        Bytes::new(),
        Bytes::new(),
    )
    .manifests;
    assert_eq!(pages[0].0, root);
    assert_eq!(pages[1].0, uuid_v5("Emotes", 1));
    let item = pages[0].1.actions.get(Position::new(1, 0)).unwrap();
    assert_eq!(item.states[0].title, "emote0");
    assert_eq!(pasted_text(item), ":_emote0:");
}

#[test]
fn content_pass_leaves_the_first_column_free() {
    let name = "Emotes".to_owned();
    let mut pages = lay_out(
        uuid_v5("Emotes", 0),
        DeviceModel::XL,
        "",
        &name,
        &images(30),
        "",
        false,
    );
    assert_eq!(pages.len(), 2);
    for (_, manifest) in pages.iter() {
        for position in manifest.actions.positions() {
            assert!(position.x >= 1);
        }
    }
    assert_eq!(pages[0].1.actions.len(), 24);
    assert_eq!(pages[1].1.actions.len(), 6);
    link_pages(
        &mut pages,
        DeviceModel::XL,
        &Bytes::from_static(b"b"),
        &Bytes::from_static(b"f"),
    );
    assert_eq!(pages[0].1.actions.len(), 25);
    assert_eq!(pages[1].1.actions.len(), 7);
    assert!(pages[0].1.actions.contains_key(Position::new(0, 7)));
    assert!(pages[1].1.actions.contains_key(Position::new(0, 0)));
}

#[test]
fn placing_fills_rows_and_closes_full_pages() {
    let emote = Emote { name: "a".to_owned(), url: String::new() };
    let mut state = Layout::new(
        uuid_v5("Emotes", 0),
        DeviceModel::Standard,
        String::new(),
        "Emotes".to_owned(),
    );
    assert_eq!((state.finished_pages(), state.slots_in_hand()), (0, 0));
    let mut seen = Vec::new();
    for _ in 0..14 {
        state = state.place(emote.to_action("", false, None));
        seen.push((state.finished_pages(), state.slots_in_hand()));
    }
    assert_eq!(
        seen,
        vec![
            (0, 2),
            (0, 3),
            (0, 4),
            (0, 5),
            (0, 7),
            (0, 8),
            (0, 9),
            (0, 10),
            (0, 12),
            (0, 13),
            (0, 14),
            (0, 15),
            (1, 2),
            (1, 3)
        ]
    );
    let pages = state.finish();
    assert_eq!(pages.len(), 2);
    assert_eq!(pages[0].1.actions.len(), 12);
    assert_eq!(pages[1].1.actions.len(), 2);
    assert_eq!(pages[1].0, uuid_v5("Emotes", 1));
}

#[test]
fn finishing_an_empty_layout_gives_no_page() {
    let state = Layout::new(Uuid::nil(), DeviceModel::Mini, String::new(), String::new());
    assert!(state.finish().is_empty());
}
