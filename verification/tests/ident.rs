use streamdeck_emotes::ident::{page_locator, uuid_v5};
use uuid::Uuid;

#[test]
fn locator_joins_name_and_page() {
    assert_eq!(
        page_locator("Emotes", 12),
        "https://github.com/walfie/streamdeck-youtube-emotes#Emotes_page12"
    );
}

#[test]
fn identifier_is_the_url_namespace_v5_of_the_locator() {
    let expected = Uuid::new_v5(
        &Uuid::NAMESPACE_URL,
        b"https://github.com/walfie/streamdeck-youtube-emotes#Emotes_page1",
    );
    assert_eq!(uuid_v5("Emotes", 1), expected);
}

#[test]
fn identifiers_of_the_first_pages_of_a_profile() {
    assert_eq!(
        uuid_v5("Emotes", 0),
        Uuid::parse_str("bb230f14-617c-5fa9-b03d-a5bb53d5aba6").unwrap()
    );
    assert_eq!(
        uuid_v5("Emotes", 1),
        Uuid::parse_str("f89d280f-e0ff-5b9a-830e-d1cb14b7aeeb").unwrap()
    );
    assert_eq!(
        uuid_v5("Emotes", 2),
        Uuid::parse_str("3b543b5b-cef0-58fb-be2a-977550764d4a").unwrap()
    );
    assert_eq!(
        uuid_v5("", 0),
        Uuid::parse_str("0f7ce194-34c2-5dab-9459-95c196f4f185").unwrap()
    );
}

#[test]
fn identifier_is_the_same_on_every_call_and_differs_between_pages() {
    for page in 0..40 {
        assert_eq!(uuid_v5("Emotes", page), uuid_v5("Emotes", page));
        assert_ne!(page_locator("Emotes", page), page_locator("Emotes", page + 1));
        assert_ne!(uuid_v5("Emotes", page), uuid_v5("Emotes", page + 1));
    }
    assert_ne!(uuid_v5("Emotes", 1), uuid_v5("emotes", 1));
}

#[test]
fn locator_writes_the_page_in_decimal() {
    let head = "https://github.com/walfie/streamdeck-youtube-emotes#";
    assert_eq!(page_locator("", 0), format!("{}_page0", head));
    assert_eq!(page_locator("a_page1", 10), format!("{}a_page1_page10", head));
    assert_eq!(
        page_locator("é", usize::MAX),
        format!("{}é_page{}", head, usize::MAX)
    );
}
