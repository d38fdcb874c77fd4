use serde_json::Value;
use streamdeck_emotes::youtube::{
    cut_at_equals, emotes_in, initial_data, parse_emotes, read_emote, ParseError,
};

fn image(label: &str, url: &str) -> String {
    format!(
        r#"{{"accessibility": {{"accessibilityData": {{"label": "{}"}}}}, "thumbnails": [{{"url": "{}"}}]}}"#,
        label, url
    )
}

fn data(images: &[String]) -> String {
    format!(
        r#"{{"contents": {{"twoColumnBrowseResultsRenderer": {{"tabs": [
            {{"tabRenderer": {{"title": "empty"}}}},
            {{"tabRenderer": {{"content": {{"sectionListRenderer": {{"contents": [
                {{"other": 1}},
                {{"sponsorshipsExpandablePerksRenderer": {{"expandableItems": [
                    {{"sponsorshipsPerkRenderer": {{"title": "badges"}}}},
                    {{"sponsorshipsPerkRenderer": {{"images": [{}]}}}}
                ]}}}}
            ]}}}}}}}}
        ]}}}}}}"#,
        images.join(", ")
    )
}

fn page(data: &str) -> String {
    format!(
        "<html><script>var x = 1;</script><script>var ytInitialData = {};</script><p>=</p></html>",
        data
    )
}

fn document(text: &str) -> Value {
    serde_json::from_str(text).unwrap()
}

#[test]
fn emotes_are_read_in_order() {
    let html = page(&data(&[
        image("small9cm", "https://yt3.example.com/abc=w48-h48-c-k-nd"),
        image("hic1", "https://yt3.example.com/def"),
        image("wave", "https://yt3.example.com/a=b=c"),
    ]));
    let emotes = parse_emotes(&html).unwrap();
    assert_eq!(emotes.len(), 3);
    assert_eq!(emotes[0].name, "small9cm");
    assert_eq!(emotes[0].url, "https://yt3.example.com/abc");
    assert_eq!(emotes[1].name, "hic1");
    assert_eq!(emotes[1].url, "https://yt3.example.com/def");
    assert_eq!(emotes[2].name, "wave");
    assert_eq!(emotes[2].url, "https://yt3.example.com/a");
}

#[test]
fn emotes_of_several_tabs_and_perks_follow_each_other() {
    let text = format!(
        r#"{{"contents": {{"twoColumnBrowseResultsRenderer": {{"tabs": [
            {{"tabRenderer": {{"content": {{"sectionListRenderer": {{"contents": [
                {{"sponsorshipsExpandablePerksRenderer": {{"expandableItems": [
                    {{"sponsorshipsPerkRenderer": {{"images": [{}]}}}},
                    {{"sponsorshipsPerkRenderer": {{"images": [{}, {}]}}}}
                ]}}}},
                {{"sponsorshipsExpandablePerksRenderer": {{"expandableItems": [
                    {{"sponsorshipsPerkRenderer": {{"images": [{}]}}}}
                ]}}}}
            ]}}}}}}}},
            {{"tabRenderer": {{"content": {{"sectionListRenderer": {{"contents": [
                {{"sponsorshipsExpandablePerksRenderer": {{"expandableItems": [
                    {{"sponsorshipsPerkRenderer": {{"images": [{}]}}}}
                ]}}}}
            ]}}}}}}}}
        ]}}}}}}"#,
        image("a", "u1"),
        image("b", "u2"),
        image("c", "u3"),
        image("d", "u4"),
        image("e", "u5"),
    );
    let emotes = emotes_in(&document(&text)).unwrap();
    let names: Vec<&str> = emotes.iter().map(|e| e.name.as_str()).collect();
    assert_eq!(names, vec!["a", "b", "c", "d", "e"]);
}

#[test]
fn data_is_what_stands_between_the_marks() {
    assert_eq!(
        initial_data("x ytInitialData = {\"a\": 1};</script> ytInitialData = 2;</script>"),
        Ok("{\"a\": 1}".to_owned())
    );
    assert_eq!(
        initial_data(";</script>ytInitialData = é;;</script>"),
        Ok("é;".to_owned())
    );
    assert_eq!(initial_data("ytInitialData = ;</script>"), Ok(String::new()));
    assert_eq!(initial_data("ytInitialData =;</script>"), Err(ParseError::NoInitialData));
    assert_eq!(initial_data(""), Err(ParseError::NoInitialData));
    assert_eq!(
        initial_data(";</script>ytInitialData = {}"),
        Err(ParseError::NoEnd)
    );
    assert_eq!(
        initial_data("ytInitialData = {};</script"),
        Err(ParseError::NoEnd)
    );
}

#[test]
fn address_is_cut_at_the_first_equals_sign() {
    assert_eq!(cut_at_equals("http://a/b=c=d"), "http://a/b");
    assert_eq!(cut_at_equals("http://a/b"), "http://a/b");
    assert_eq!(cut_at_equals("=x"), "");
    assert_eq!(cut_at_equals(""), "");
    assert_eq!(cut_at_equals("é=ü"), "é");
}

#[test]
fn page_without_data_or_end_fails() {
    assert_eq!(parse_emotes("<html></html>").unwrap_err(), ParseError::NoInitialData);
    assert_eq!(
        parse_emotes("ytInitialData = {}").unwrap_err(),
        ParseError::NoEnd
    );
    assert_eq!(
        ParseError::NoInitialData.message(),
        "failed to find ytInitialData"
    );
    assert_eq!(ParseError::NoEnd.message(), "failed to find ending semicolon");
}

#[test]
fn data_that_is_not_json_fails() {
    assert_eq!(
        parse_emotes(&page("{not json")).unwrap_err(),
        ParseError::InvalidJson
    );
    assert_eq!(
        ParseError::InvalidJson.message(),
        "failed to parse ytInitialData JSON"
    );
}

#[test]
fn data_without_tabs_fails() {
    assert_eq!(parse_emotes(&page("{}")).unwrap_err(), ParseError::NoTabs);
    assert_eq!(
        parse_emotes(&page(r#"{"contents": {"twoColumnBrowseResultsRenderer": {"tabs": {}}}}"#))
            .unwrap_err(),
        ParseError::TabsNotArray
    );
    assert_eq!(
        ParseError::NoTabs.message(),
        "failed to find tab data in ytInitialData"
    );
    assert_eq!(ParseError::TabsNotArray.message(), "failed to parse tabs as array");
}

#[test]
fn data_without_images_fails() {
    assert_eq!(parse_emotes(&page(&data(&[]))).unwrap_err(), ParseError::NoEmotes);
    assert_eq!(
        parse_emotes(&page(r#"{"contents": {"twoColumnBrowseResultsRenderer": {"tabs": []}}}"#))
            .unwrap_err(),
        ParseError::NoEmotes
    );
    assert_eq!(ParseError::NoEmotes.message(), "failed to find emotes in JSON");
}

#[test]
fn image_without_label_or_address_fails() {
    let no_label = r#"{"thumbnails": [{"url": "u"}]}"#;
    let bad_label = r#"{"accessibility": {"accessibilityData": {"label": 3}}, "thumbnails": [{"url": "u"}]}"#;
    let no_url = r#"{"accessibility": {"accessibilityData": {"label": "a"}}, "thumbnails": []}"#;
    let bad_url = r#"{"accessibility": {"accessibilityData": {"label": "a"}}, "thumbnails": [{"url": null}]}"#;
    assert_eq!(read_emote(&document(no_label)).unwrap_err(), ParseError::NoLabel);
    assert_eq!(read_emote(&document(bad_label)).unwrap_err(), ParseError::LabelNotString);
    assert_eq!(read_emote(&document(no_url)).unwrap_err(), ParseError::NoUrl);
    assert_eq!(read_emote(&document(bad_url)).unwrap_err(), ParseError::UrlNotString);
    assert_eq!(ParseError::NoLabel.message(), "failed to find label");
    assert_eq!(ParseError::LabelNotString.message(), "failed to parse label as string");
    assert_eq!(ParseError::NoUrl.message(), "failed to find url");
    assert_eq!(ParseError::UrlNotString.message(), "failed to parse url as string");
}

#[test]
fn first_failing_image_decides() {
    let html = page(&data(&[
        image("a", "u"),
        r#"{"accessibility": {"accessibilityData": {"label": "b"}}}"#.to_owned(),
        r#"{"thumbnails": [{"url": "u"}]}"#.to_owned(),
    ]));
    assert_eq!(parse_emotes(&html).unwrap_err(), ParseError::NoUrl);
}
