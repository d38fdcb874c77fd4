use streamdeck_emotes::action::Emote;
use streamdeck_emotes::order::{ascii_lower_chars, position_of, rank, reorder, strip_underscore};

fn emotes(names: &[&str]) -> Vec<Emote> {
    names
        .iter()
        .enumerate()
        .map(|(i, name)| Emote { name: (*name).to_owned(), url: format!("u{}", i) })
        .collect()
}

fn list(names: &[&str]) -> Vec<String> {
    names.iter().map(|name| (*name).to_owned()).collect()
}

fn names(emotes: &[Emote]) -> Vec<String> {
    emotes.iter().map(|e| format!("{}@{}", e.name, e.url)).collect()
}

#[test]
fn leading_underscore_is_stripped_once() {
    assert_eq!(strip_underscore("_pomu"), Some("pomu".to_owned()));
    assert_eq!(strip_underscore("__pomu"), Some("_pomu".to_owned()));
    assert_eq!(strip_underscore("_"), Some(String::new()));
    assert_eq!(strip_underscore("pomu_"), None);
    assert_eq!(strip_underscore(""), None);
    assert_eq!(strip_underscore("_é"), Some("é".to_owned()));
}

#[test]
fn only_ascii_letters_change_case() {
    let lower: String = ascii_lower_chars("PoMu ÉÀ 9Z[@").into_iter().collect();
    assert_eq!(lower, "pomu ÉÀ 9z[@");
}

#[test]
fn names_are_found_whatever_their_case() {
    let names = list(&["Wave", "HIC1", "wave"]);
    assert_eq!(position_of(&names, "wave"), Some(0));
    assert_eq!(position_of(&names, "WAVE"), Some(0));
    assert_eq!(position_of(&names, "hic1"), Some(1));
    assert_eq!(position_of(&names, "hic"), None);
    assert_eq!(position_of(&Vec::new(), "hic"), None);
}

#[test]
fn rank_is_place_or_count_or_beyond() {
    let first = list(&["b", "a"]);
    let last = list(&["z", "y"]);
    assert_eq!(rank("A", &first, &last, 10), 1);
    assert_eq!(rank("b", &first, &last, 10), 0);
    assert_eq!(rank("m", &first, &last, 10), 10);
    assert_eq!(rank("Z", &first, &last, 10), 11);
    assert_eq!(rank("y", &first, &last, 10), 12);
    assert_eq!(rank("a", &list(&["a"]), &list(&["a"]), 3), 0);
    assert_eq!(rank("y", &first, &last, usize::MAX), usize::MAX as u128 + 2);
}

#[test]
fn prioritized_come_first_and_deprioritized_last() {
    let sorted = reorder(
        emotes(&["a", "b", "c", "d", "e", "f"]),
        &list(&["E", "c"]),
        &list(&["b", "A"]),
    );
    assert_eq!(
        names(&sorted),
        vec!["e@u4", "c@u2", "d@u3", "f@u5", "b@u1", "a@u0"]
    );
}

#[test]
fn emotes_of_one_rank_keep_their_order() {
    let sorted = reorder(
        emotes(&["x", "Hic", "y", "hic", "z", "HIC"]),
        &list(&["hic"]),
        &Vec::new(),
    );
    assert_eq!(
        names(&sorted),
        vec!["Hic@u1", "hic@u3", "HIC@u5", "x@u0", "y@u2", "z@u4"]
    );
    let untouched = reorder(emotes(&["c", "b", "a"]), &Vec::new(), &Vec::new());
    assert_eq!(names(&untouched), vec!["c@u0", "b@u1", "a@u2"]);
    assert!(reorder(Vec::new(), &list(&["a"]), &list(&["b"])).is_empty());
}

#[test]
fn long_list_of_first_names_reaches_past_the_unnamed() {
    let sorted = reorder(emotes(&["a", "b"]), &list(&["x", "y", "z", "b"]), &Vec::new());
    assert_eq!(names(&sorted), vec!["a@u0", "b@u1"]);
    let sorted = reorder(emotes(&["a", "b"]), &list(&["x", "y", "a"]), &Vec::new());
    assert_eq!(names(&sorted), vec!["a@u0", "b@u1"]);
    let sorted = reorder(emotes(&["a", "b", "c"]), &list(&["x", "y", "z", "v", "a"]), &Vec::new());
    assert_eq!(names(&sorted), vec!["b@u1", "c@u2", "a@u0"]);
}
