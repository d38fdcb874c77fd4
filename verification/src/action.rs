//! Buttons: what a key of the panel shows and does.

use crate::ident::uuid_bits;
use crate::text::{capitalized, push_capitalized};
use bytes::Bytes;
use uuid::Uuid;
use vstd::prelude::*;
use vstd::string::*;

verus! {

/// `bytes::Bytes`, the bytes of an image, carried as they are.
#[verifier::external_type_specification]
#[verifier::external_body]
pub struct ExBytes(bytes::Bytes);

/// The bytes that a `Bytes` buffer holds.
pub uninterp spec fn bytes_view(b: Bytes) -> Seq<u8>;

/// `Bytes::clone` hands out a second handle to the same bytes.
pub assume_specification[ <Bytes as Clone>::clone ](b: &Bytes) -> (r: Bytes)
    ensures
        bytes_view(r) == bytes_view(*b),
;

/// The bytes of an optional image.
pub open spec fn image_view(image: Option<Bytes>) -> Option<Seq<u8>> {
    match image {
        Some(b) => Some(bytes_view(b)),
        None => None,
    }
}

/// Look of a key in one of its states.
pub struct State {
    pub f_family: String,
    pub f_size: String,
    pub f_style: String,
    pub f_underline: String,
    pub image: String,
    pub title: String,
    pub title_alignment: String,
    pub title_color: String,
    pub title_show: String,
}

/// A `State` as plain text fields.
pub struct StateView {
    pub f_family: Seq<char>,
    pub f_size: Seq<char>,
    pub f_style: Seq<char>,
    pub f_underline: Seq<char>,
    pub image: Seq<char>,
    pub title: Seq<char>,
    pub title_alignment: Seq<char>,
    pub title_color: Seq<char>,
    pub title_show: Seq<char>,
}

impl View for State {
    type V = StateView;

    open spec fn view(&self) -> StateView {
        StateView {
            f_family: self.f_family@,
            f_size: self.f_size@,
            f_style: self.f_style@,
            f_underline: self.f_underline@,
            image: self.image@,
            title: self.title@,
            title_alignment: self.title_alignment@,
            title_color: self.title_color@,
            title_show: self.title_show@,
        }
    }
}

impl State {
    /// The look of a key that shows no image and no title.
    pub open spec fn spec_default() -> StateView {
        StateView {
            f_family: ""@,
            f_size: "12"@,
            f_style: ""@,
            f_underline: "off"@,
            image: ""@,
            title: ""@,
            title_alignment: "bottom"@,
            title_color: "#fbfcff"@,
            title_show: ""@,
        }
    }

    /// The default look, with the key's own image file shown.
    pub open spec fn spec_new_image() -> StateView {
        StateView { image: "state0.png"@, ..Self::spec_default() }
    }

    /// The look of an image key with the caption `title`.
    pub open spec fn spec_titled(title: Seq<char>) -> StateView {
        StateView { title, ..Self::spec_new_image() }
    }

    /// The default look, with the key's own image file shown.
    pub fn new_image() -> (r: Self)
        ensures
            r@ == Self::spec_new_image(),
    {
        let mut state = State::default();
        state.image = "state0.png".to_owned();
        state
    }

    /// An image key's look with the caption `title`.
    pub fn titled(title: String) -> (r: Self)
        ensures
            r@ == Self::spec_titled(title@),
    {
        let mut state = State::new_image();
        state.title = title;
        state
    }
}

impl Default for State {
    fn default() -> (r: Self)
        ensures
            r@ == State::spec_default(),
    {
        State {
            f_family: "".to_owned(),
            f_size: "12".to_owned(),
            f_style: "".to_owned(),
            f_underline: "off".to_owned(),
            image: "".to_owned(),
            title: "".to_owned(),
            title_alignment: "bottom".to_owned(),
            title_color: "#fbfcff".to_owned(),
            title_show: "".to_owned(),
        }
    }
}

/// What pressing a key does.
#[derive(Debug)]
pub enum Settings {
    /// Return to the page that this page was opened from.
    BackToParent {  },
    /// Open the page with the identifier `profile_uuid`.
    OpenChild { profile_uuid: Uuid },
    /// Type `pasted_text`.
    Text { is_sending_enter: bool, pasted_text: String },
}

/// `Settings` as plain values.
pub enum SettingsView {
    BackToParent,
    OpenChild { profile_uuid: u128 },
    Text { is_sending_enter: bool, pasted_text: Seq<char> },
}

impl View for Settings {
    type V = SettingsView;

    open spec fn view(&self) -> SettingsView {
        match self {
            Settings::BackToParent {  } => SettingsView::BackToParent,
            Settings::OpenChild { profile_uuid } => SettingsView::OpenChild {
                profile_uuid: uuid_bits(*profile_uuid),
            },
            Settings::Text { is_sending_enter, pasted_text } => SettingsView::Text {
                is_sending_enter: *is_sending_enter,
                pasted_text: pasted_text@,
            },
        }
    }
}

/// A button: its looks, its kind, what it does, and the image on its key.
pub struct Action {
    pub state: u8,
    pub states: Vec<State>,
    pub name: String,
    pub settings: Settings,
    pub image: Option<Bytes>,
}

/// An `Action` as plain values.
pub struct ActionView {
    pub state: u8,
    pub states: Seq<StateView>,
    pub name: Seq<char>,
    pub settings: SettingsView,
    pub image: Option<Seq<u8>>,
}

impl View for Action {
    type V = ActionView;

    open spec fn view(&self) -> ActionView {
        ActionView {
            state: self.state,
            states: self.states@.map_values(|s: State| s@),
            name: self.name@,
            settings: self.settings@,
            image: image_view(self.image),
        }
    }
}

/// The text that a content button types: `:_`, the prefix, the label, `:`.
/// With a prefix the label's first character is put in ASCII upper case.
pub open spec fn spec_payload(prefix: Seq<char>, label: Seq<char>) -> Seq<char> {
    ":_"@ + prefix + (if prefix.len() > 0 {
        capitalized(label)
    } else {
        label
    }) + ":"@
}

/// The text that the content button of `label` types.
pub fn payload(prefix: &str, label: &str) -> (r: String)
    ensures
        r@ == spec_payload(prefix@, label@),
{
    let mut text = String::from_str(":_");
    text.append(prefix);
    if !prefix.is_empty() {
        push_capitalized(&mut text, label);
    } else {
        text.append(label);
    }
    text.append(":");
    text
}

/// The content button of an item: it types the item's payload and shows
/// `image`, with the label as caption if `include_label` is set.
pub open spec fn spec_content_button(
    label: Seq<char>,
    prefix: Seq<char>,
    include_label: bool,
    image: Option<Seq<u8>>,
) -> ActionView {
    ActionView {
        state: 0,
        states: seq![State::spec_titled(if include_label { label } else { ""@ })],
        name: "Text"@,
        settings: SettingsView::Text {
            is_sending_enter: false,
            pasted_text: spec_payload(prefix, label),
        },
        image,
    }
}

/// The button that returns to the parent page.
pub open spec fn spec_back_button(icon: Seq<u8>) -> ActionView {
    ActionView {
        state: 0,
        states: seq![State::spec_titled("Back"@)],
        name: "Open Folder"@,
        settings: SettingsView::BackToParent,
        image: Some(icon),
    }
}

/// The button that opens the page `child`.
pub open spec fn spec_forward_button(child: u128, icon: Seq<u8>) -> ActionView {
    ActionView {
        state: 0,
        states: seq![State::spec_titled("Next"@)],
        name: "Create Folder"@,
        settings: SettingsView::OpenChild { profile_uuid: child },
        image: Some(icon),
    }
}

impl Action {
    /// A button with one look.
    pub fn with_state(name: String, look: State, settings: Settings, image: Option<Bytes>) -> (r:
        Self)
        ensures
            r@ == (ActionView {
                state: 0,
                states: seq![look@],
                name: name@,
                settings: settings@,
                image: image_view(image),
            }),
    {
        let mut states: Vec<State> = Vec::new();
        states.push(look);
        let r = Action { state: 0, states, name, settings, image };
        assert(r@.states =~= seq![look@]);
        r
    }

    /// The button that returns to the parent page.
    pub fn back(icon: Bytes) -> (r: Self)
        ensures
            r@ == spec_back_button(bytes_view(icon)),
    {
        Action::with_state(
            "Open Folder".to_owned(),
            State::titled("Back".to_owned()),
            Settings::BackToParent {  },
            Some(icon),
        )
    }

    /// The button that opens the page `child`.
    pub fn forward(child: Uuid, icon: Bytes) -> (r: Self)
        ensures
            r@ == spec_forward_button(uuid_bits(child), bytes_view(icon)),
    {
        Action::with_state(
            "Create Folder".to_owned(),
            State::titled("Next".to_owned()),
            Settings::OpenChild { profile_uuid: child },
            Some(icon),
        )
    }
}

/// An item to lay out: its label and where its image is to be had.
#[derive(Debug, Clone)]
pub struct Emote {
    pub name: String,
    pub url: String,
}

/// An item with its image.
#[derive(Debug)]
pub struct EmoteImage {
    pub emote: Emote,
    pub bytes: Bytes,
}

impl Emote {
    /// The content button of the item.
    pub fn to_action(&self, prefix: &str, include_label: bool, image: Option<Bytes>) -> (r: Action)
        ensures
            r@ == spec_content_button(self.name@, prefix@, include_label, image_view(image)),
    {
        let title = if include_label {
            self.name.clone()
        } else {
            "".to_owned()
        };
        Action::with_state(
            "Text".to_owned(),
            State::titled(title),
            Settings::Text {
                is_sending_enter: false,
                pasted_text: payload(prefix, self.name.as_str()),
            },
            image,
        )
    }
}

} // verus!
