use streamdeck_emotes::grid::Position;
use streamdeck_emotes::ident::uppercase_id;
use streamdeck_emotes::paths::{
    default_profiles_dir, image_path, page_places, profile_dir, Platform,
};
use uuid::Uuid;

fn ids() -> Vec<Uuid> {
    vec![
        Uuid::parse_str("ac20bcf3-0a7c-4243-bb74-5c0dc5681ba5").unwrap(),
        Uuid::from_u128(1),
        Uuid::from_u128(0xabc),
        Uuid::from_u128(0xdef),
    ]
}

#[test]
fn identifier_is_written_hyphenated_in_upper_case() {
    assert_eq!(uppercase_id(&ids()[0]), "AC20BCF3-0A7C-4243-BB74-5C0DC5681BA5");
    assert_eq!(
        uppercase_id(&Uuid::from_u128(0xabc)),
        "00000000-0000-0000-0000-000000000ABC"
    );
}

#[test]
fn directory_is_named_after_the_identifier() {
    assert_eq!(
        profile_dir(&ids()[0]),
        "AC20BCF3-0A7C-4243-BB74-5C0DC5681BA5.sdProfile"
    );
}

#[test]
fn pages_nest_inside_each_other() {
    let places = page_places(&ids());
    let d0 = "AC20BCF3-0A7C-4243-BB74-5C0DC5681BA5.sdProfile";
    let d1 = "00000000-0000-0000-0000-000000000001.sdProfile";
    let d2 = "00000000-0000-0000-0000-000000000ABC.sdProfile";
    let d3 = "00000000-0000-0000-0000-000000000DEF.sdProfile";
    assert_eq!(places.len(), 4);
    assert_eq!(places[0].path, vec![d0]);
    assert_eq!(places[1].path, vec![d0, "Profiles", d1]);
    assert_eq!(places[2].path, vec![d0, "Profiles", d1, "Profiles", d2]);
    assert_eq!(
        places[3].path,
        vec![d0, "Profiles", d1, "Profiles", d2, "Profiles", d3]
    );
    assert_eq!(places[0].unnested, None);
    assert_eq!(places[1].unnested, None);
    assert_eq!(
        places[2].unnested,
        Some(vec![d0.to_owned(), "Profiles".to_owned(), d2.to_owned()])
    );
    assert_eq!(
        places[3].unnested,
        Some(vec![d0.to_owned(), "Profiles".to_owned(), d3.to_owned()])
    );
    assert!(page_places(&Vec::new()).is_empty());
}

#[test]
fn image_is_stored_under_the_position_key() {
    assert_eq!(
        image_path(Position::new(4, 2)),
        vec!["4,2", "CustomImages", "state0.png"]
    );
}

#[test]
fn default_directory_depends_on_the_platform() {
    assert_eq!(
        default_profiles_dir(Platform::MacOs),
        Some(vec![
            "Library".to_owned(),
            "Application Support".to_owned(),
            "com.elgato.StreamDeck".to_owned(),
            "ProfilesV2".to_owned()
        ])
    );
    assert_eq!(
        default_profiles_dir(Platform::Other),
        Some(vec![
            "%AppData%".to_owned(),
            "Roaming".to_owned(),
            "StreamDeck".to_owned(),
            "ProfilesV2".to_owned()
        ])
    );
    assert_eq!(default_profiles_dir(Platform::Windows), None);
}
