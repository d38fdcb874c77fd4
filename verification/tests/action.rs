use streamdeck_emotes::action::{payload, Emote, Settings, State};

#[test]
fn emote_to_action_with_prefix() {
    let emote = Emote {
        url: "http://example.com/image.png".into(),
        name: "small9cm".into(),
    };

    let action = emote.to_action("pomu", true, None);

    assert_eq!(action.states[0].title, "small9cm");

    match action.settings {
        Settings::Text { pasted_text, .. } if pasted_text == ":_pomuSmall9cm:" => {}
        _ => panic!(
            "Failed to find expected text in settings: {:?}",
            action.settings
        ),
    }
}

#[test]
fn emote_to_action_no_prefix() {
    let emote = Emote {
        url: "http://example.com/image.png".into(),
        name: "hic1".into(),
    };

    let action = emote.to_action("", false, None);

    assert_eq!(action.states[0].title, "");

    match action.settings {
        Settings::Text { pasted_text, .. } if pasted_text == ":_hic1:" => {}
        _ => panic!(
            "Failed to find expected text in settings: {:?}",
            action.settings
        ),
    }
}

#[test]
fn content_button_has_one_image_state_and_does_not_send_enter() {
    let emote = Emote { url: String::new(), name: "wave".into() };
    let action = emote.to_action("pomu", false, None);
    assert_eq!(action.name, "Text");
    assert_eq!(action.state, 0);
    assert_eq!(action.states.len(), 1);
    assert_eq!(action.states[0].image, "state0.png");
    assert_eq!(action.states[0].f_size, "12");
    assert!(action.image.is_none());
    assert!(matches!(
        action.settings,
        Settings::Text { is_sending_enter: false, .. }
    ));
}

#[test]
fn payload_capitalizes_only_ascii_and_only_with_a_prefix() {
    assert_eq!(payload("pomu", "small9cm"), ":_pomuSmall9cm:");
    assert_eq!(payload("", "hic1"), ":_hic1:");
    assert_eq!(payload("pomu", ""), ":_pomu:");
    assert_eq!(payload("", ""), ":_:");
    assert_eq!(payload("pomu", "Already"), ":_pomuAlready:");
    assert_eq!(payload("pomu", "9lives"), ":_pomu9lives:");
    assert_eq!(payload("pomu", "élan"), ":_pomuélan:");
    assert_eq!(payload("pomu", "z"), ":_pomuZ:");
    assert_eq!(payload("p", "aé"), ":_pAé:");
}

#[test]
fn default_state_has_the_stock_look() {
    let state = State::default();
    assert_eq!(state.f_family, "");
    assert_eq!(state.f_size, "12");
    assert_eq!(state.f_style, "");
    assert_eq!(state.f_underline, "off");
    assert_eq!(state.image, "");
    assert_eq!(state.title, "");
    assert_eq!(state.title_alignment, "bottom");
    assert_eq!(state.title_color, "#fbfcff");
    assert_eq!(state.title_show, "");
    assert_eq!(State::new_image().image, "state0.png");
    assert_eq!(State::new_image().title_color, "#fbfcff");
}
