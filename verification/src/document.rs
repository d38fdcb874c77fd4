//! The JSON form in which the device software stores a page.

use crate::action::{Action, ActionView, Settings, SettingsView, State, StateView};
use crate::grid::{lemma_position_key_injective, position_key, Position};
use crate::ident::{spec_uppercase_id, uppercase_id};
use crate::json::{
    array_value, bool_value, insert, integer_value, json_view, json_views, members, new_object,
    object_value, text_value, Json,
};
use crate::manifest::{ManifestView, ProfileManifest};
use crate::merge::{position_keys, spec_merge, Page, PageView};
use crate::records::{distinct_keys, entries_map, has_key, lemma_entry_in_map};
use serde_json::Value;
use vstd::prelude::*;

verus! {

/// The JSON form of a look.
pub open spec fn state_json(state: StateView) -> Json {
    Json::Object(
        Map::empty().insert("FFamily"@, Json::Text(state.f_family)).insert(
            "FSize"@,
            Json::Text(state.f_size),
        ).insert("FStyle"@, Json::Text(state.f_style)).insert(
            "FUnderline"@,
            Json::Text(state.f_underline),
        ).insert("Image"@, Json::Text(state.image)).insert(
            "Title"@,
            Json::Text(state.title),
        ).insert(
            "TitleAlignment"@,
            Json::Text(state.title_alignment),
        ).insert("TitleColor"@, Json::Text(state.title_color)).insert(
            "TitleShow"@,
            Json::Text(state.title_show),
        ),
    )
}

/// The name by which the device software knows what a button does.
pub open spec fn settings_tag(settings: SettingsView) -> Seq<char> {
    match settings {
        SettingsView::BackToParent => "com.elgato.streamdeck.profile.backtoparent"@,
        SettingsView::OpenChild { .. } => "com.elgato.streamdeck.profile.openchild"@,
        SettingsView::Text { .. } => "com.elgato.streamdeck.system.text"@,
    }
}

/// The JSON form of what a button does.
pub open spec fn settings_json(settings: SettingsView) -> Json {
    match settings {
        SettingsView::BackToParent => Json::Object(Map::empty()),
        SettingsView::OpenChild { profile_uuid } => Json::Object(
            Map::empty().insert("ProfileUUID"@, Json::Text(spec_uppercase_id(profile_uuid))),
        ),
        SettingsView::Text { is_sending_enter, pasted_text } => Json::Object(
            Map::empty().insert("isSendingEnter"@, Json::Bool(is_sending_enter)).insert(
                "pastedText"@,
                Json::Text(pasted_text),
            ),
        ),
    }
}

/// The JSON forms of looks.
pub open spec fn states_json(states: Seq<StateView>) -> Seq<Json> {
    states.map_values(|state: StateView| state_json(state))
}

/// The JSON form of a button. The image is not part of it.
pub open spec fn action_json(action: ActionView) -> Json {
    Json::Object(
        Map::empty().insert("State"@, Json::Integer(action.state as int)).insert(
            "States"@,
            Json::Array(states_json(action.states)),
        ).insert("Name"@, Json::Text(action.name)).insert(
            "UUID"@,
            Json::Text(settings_tag(action.settings)),
        ).insert("Settings"@, settings_json(action.settings)),
    )
}

/// The position of the button that `actions` holds under the key `key`.
pub open spec fn position_under(actions: Map<Position, ActionView>, key: Seq<char>) -> Position {
    choose|p: Position| #[trigger] actions.contains_key(p) && position_key(p) == key
}

/// The table of buttons: the JSON form of every button under the key of
/// its position.
pub open spec fn actions_json(actions: Map<Position, ActionView>) -> Map<Seq<char>, Json> {
    Map::new(
        |key: Seq<char>| position_keys(actions).contains(key),
        |key: Seq<char>| action_json(actions[position_under(actions, key)]),
    )
}

/// The JSON form of a page with the table of buttons `table`.
pub open spec fn page_document(manifest: ManifestView, table: Map<Seq<char>, Json>) -> Json {
    Json::Object(
        Map::empty().insert("Actions"@, Json::Object(table)).insert(
            "DeviceModel"@,
            Json::Text(manifest.device_model.spec_id()),
        ).insert("DeviceUUID"@, Json::Text(manifest.device_uuid)).insert(
            "Name"@,
            Json::Text(manifest.name),
        ).insert("Version"@, Json::Text(manifest.version)),
    )
}

/// The JSON form of a page as the layout produced it.
pub open spec fn manifest_json(manifest: ManifestView) -> Json {
    page_document(manifest, actions_json(manifest.actions))
}

/// The JSON form of a page with what it keeps: the kept buttons stand in the
/// table beside the page's own, which come first where a key is taken twice.
pub open spec fn page_json(page: PageView) -> Json {
    page_document(page.manifest, page.kept.union_prefer_right(actions_json(page.manifest.actions)))
}

/// The button under the key of a position is the button at that position.
proof fn lemma_action_under_key(actions: Map<Position, ActionView>, p: Position)
    requires
        actions.contains_key(p),
    ensures
        actions_json(actions).contains_key(position_key(p)),
        actions_json(actions)[position_key(p)] == action_json(actions[p]),
{
    let key = position_key(p);
    let q = position_under(actions, key);
    assert(actions.contains_key(q) && position_key(q) == key);
    lemma_position_key_injective(p, q);
}

impl State {
    /// The JSON form of the look.
    pub fn to_json(&self) -> (r: Value)
        ensures
            json_view(r) == state_json(self@),
    {
        let mut object = new_object();
        insert(&mut object, "FFamily".to_owned(), text_value(self.f_family.clone()));
        insert(&mut object, "FSize".to_owned(), text_value(self.f_size.clone()));
        insert(&mut object, "FStyle".to_owned(), text_value(self.f_style.clone()));
        insert(&mut object, "FUnderline".to_owned(), text_value(self.f_underline.clone()));
        insert(&mut object, "Image".to_owned(), text_value(self.image.clone()));
        insert(&mut object, "Title".to_owned(), text_value(self.title.clone()));
        insert(&mut object, "TitleAlignment".to_owned(), text_value(self.title_alignment.clone()));
        insert(&mut object, "TitleColor".to_owned(), text_value(self.title_color.clone()));
        insert(&mut object, "TitleShow".to_owned(), text_value(self.title_show.clone()));
        object_value(object)
    }
}

impl Settings {
    /// The name by which the device software knows what the button does.
    pub fn tag(&self) -> (r: &'static str)
        ensures
            r@ == settings_tag(self@),
    {
        match self {
            Settings::BackToParent {  } => "com.elgato.streamdeck.profile.backtoparent",
            Settings::OpenChild { .. } => "com.elgato.streamdeck.profile.openchild",
            Settings::Text { .. } => "com.elgato.streamdeck.system.text",
        }
    }

    /// The JSON form of what the button does.
    pub fn to_json(&self) -> (r: Value)
        ensures
            json_view(r) == settings_json(self@),
    {
        let mut object = new_object();
        match self {
            Settings::BackToParent {  } => {},
            Settings::OpenChild { profile_uuid } => {
                insert(
                    &mut object,
                    "ProfileUUID".to_owned(),
                    text_value(uppercase_id(profile_uuid)),
                );
            },
            Settings::Text { is_sending_enter, pasted_text } => {
                insert(&mut object, "isSendingEnter".to_owned(), bool_value(*is_sending_enter));
                insert(&mut object, "pastedText".to_owned(), text_value(pasted_text.clone()));
            },
        }
        object_value(object)
    }
}

impl Action {
    /// The JSON form of the button.
    pub fn to_json(&self) -> (r: Value)
        ensures
            json_view(r) == action_json(self@),
    {
        let mut states: Vec<Value> = Vec::new();
        let mut i: usize = 0;
        let ghost wanted = states_json(self@.states);
        assert(json_views(states@) =~= wanted.take(0));
        while i < self.states.len()
            invariant
                i <= self.states.len(),
                wanted == states_json(self@.states),
                json_views(states@) == wanted.take(i as int),
            decreases self.states.len() - i,
        {
            let ghost before = json_views(states@);
            let state = self.states[i].to_json();
            states.push(state);
            proof {
                assert(self@.states[i as int] == self.states@[i as int]@);
                assert(json_views(states@) =~= before.push(json_view(state)));
                assert(wanted.take(i + 1) =~= wanted.take(i as int).push(wanted[i as int]));
            }
            i += 1;
        }
        assert(wanted.take(wanted.len() as int) =~= wanted);
        let mut object = new_object();
        insert(&mut object, "State".to_owned(), integer_value(self.state));
        insert(&mut object, "States".to_owned(), array_value(states));
        insert(&mut object, "Name".to_owned(), text_value(self.name.clone()));
        insert(&mut object, "UUID".to_owned(), text_value(self.settings.tag().to_owned()));
        insert(&mut object, "Settings".to_owned(), self.settings.to_json());
        object_value(object)
    }
}

/// Puts the JSON form of every button of `manifest` into `table`, under the
/// key of its position.
fn insert_actions(table: &mut serde_json::Map<String, Value>, manifest: &ProfileManifest)
    ensures
        members(*final(table)) == members(*old(table)).union_prefer_right(
            actions_json(manifest@.actions),
        ),
{
    let ghost start = members(*table);
    let ghost actions = manifest@.actions;
    let positions = manifest.actions.positions();
    let mut i: usize = 0;
    while i < positions.len()
        invariant
            i <= positions.len(),
            actions == manifest@.actions,
            forall|p: Position| positions@.contains(p) <==> actions.contains_key(p),
            forall|key: Seq<char>| #[trigger]
                members(*table).contains_key(key) <==> start.contains_key(key) || exists|j: int|
                    0 <= j < i && position_key(#[trigger] positions@[j]) == key,
            forall|key: Seq<char>| #[trigger]
                members(*table).contains_key(key) ==> members(*table)[key] == if exists|j: int|
                    0 <= j < i && position_key(#[trigger] positions@[j]) == key {
                    actions_json(actions)[key]
                } else {
                    start[key]
                },
        decreases positions.len() - i,
    {
        let position = positions[i];
        let ghost before = members(*table);
        proof {
            assert(positions@.contains(positions@[i as int]));
            lemma_action_under_key(actions, position);
        }
        match manifest.actions.get(position) {
            Some(action) => {
                insert(table, position.to_string(), action.to_json());
            },
            None => {},
        }
        proof {
            assert forall|key: Seq<char>| #[trigger]
                members(*table).contains_key(key) <==> start.contains_key(key) || exists|j: int|
                    0 <= j < i + 1 && position_key(#[trigger] positions@[j]) == key by {
                if exists|j: int| 0 <= j < i && position_key(#[trigger] positions@[j]) == key {
                    let j = choose|j: int|
                        0 <= j < i && position_key(#[trigger] positions@[j]) == key;
                    assert(0 <= j < i + 1 && position_key(positions@[j]) == key);
                }
                if key == position_key(position) {
                    assert(0 <= i < i + 1 && position_key(positions@[i as int]) == key);
                }
                if exists|j: int| 0 <= j < i + 1 && position_key(#[trigger] positions@[j]) == key {
                    let j = choose|j: int|
                        0 <= j < i + 1 && position_key(#[trigger] positions@[j]) == key;
                    if j < i {
                        assert(0 <= j < i && position_key(positions@[j]) == key);
                    }
                }
                assert(before.contains_key(key) <==> start.contains_key(key) || exists|j: int|
                    0 <= j < i && position_key(#[trigger] positions@[j]) == key);
            }
            assert forall|key: Seq<char>| #[trigger]
                members(*table).contains_key(key) implies members(*table)[key] == if exists|
                j: int,
            |
                0 <= j < i + 1 && position_key(#[trigger] positions@[j]) == key {
                actions_json(actions)[key]
            } else {
                start[key]
            } by {
                if key != position_key(position) {
                    assert(before.contains_key(key));
                    if exists|j: int|
                        0 <= j < i + 1 && position_key(#[trigger] positions@[j]) == key {
                        let j = choose|j: int|
                            0 <= j < i + 1 && position_key(#[trigger] positions@[j]) == key;
                        assert(0 <= j < i && position_key(positions@[j]) == key);
                    }
                } else {
                    assert(0 <= i < i + 1 && position_key(positions@[i as int]) == key);
                }
            }
        }
        i += 1;
    }
    proof {
        let wanted = start.union_prefer_right(actions_json(actions));
        assert forall|key: Seq<char>|
            (exists|j: int|
                0 <= j < positions@.len() && position_key(#[trigger] positions@[j]) == key)
                <==> position_keys(actions).contains(key) by {
            if position_keys(actions).contains(key) {
                let p = position_under(actions, key);
                assert(positions@.contains(p));
                let j = choose|j: int| 0 <= j < positions@.len() && positions@[j] == p;
                assert(position_key(positions@[j]) == key);
            }
            if exists|j: int|
                0 <= j < positions@.len() && position_key(#[trigger] positions@[j]) == key {
                let j = choose|j: int|
                    0 <= j < positions@.len() && position_key(#[trigger] positions@[j]) == key;
                assert(positions@.contains(positions@[j]));
                assert(actions.contains_key(positions@[j]));
            }
        }
        assert(members(*table) =~= wanted);
    }
}

/// The JSON form of a page with the table of buttons `table`.
fn document_of(manifest: &ProfileManifest, table: serde_json::Map<String, Value>) -> (r: Value)
    ensures
        json_view(r) == page_document(manifest@, members(table)),
{
    let mut object = new_object();
    insert(&mut object, "Actions".to_owned(), object_value(table));
    let model = manifest.device_model.id().to_owned();
    insert(&mut object, "DeviceModel".to_owned(), text_value(model));
    insert(&mut object, "DeviceUUID".to_owned(), text_value(manifest.device_uuid.clone()));
    insert(&mut object, "Name".to_owned(), text_value(manifest.name.clone()));
    insert(&mut object, "Version".to_owned(), text_value(manifest.version.clone()));
    object_value(object)
}

impl ProfileManifest {
    /// The JSON form of the page.
    pub fn to_json(&self) -> (r: Value)
        ensures
            json_view(r) == manifest_json(self@),
    {
        let mut table = new_object();
        insert_actions(&mut table, self);
        assert(members(table) =~= actions_json(self@.actions));
        document_of(self, table)
    }
}

impl Page {
    /// The JSON form of the page with what it keeps.
    pub fn to_json(&self) -> (r: Value)
        ensures
            json_view(r) == page_json(self@),
    {
        let mut table = new_object();
        let kept = self.kept.entries();
        let mut i: usize = 0;
        while i < kept.len()
            invariant
                i <= kept.len(),
                distinct_keys(kept@),
                entries_map(kept@) == self.kept@,
                forall|key: Seq<char>| #[trigger]
                    members(table).contains_key(key) <==> exists|j: int|
                        0 <= j < i && (#[trigger] kept@[j]).0@ == key,
                forall|key: Seq<char>| #[trigger]
                    members(table).contains_key(key) ==> members(table)[key] == self.kept@[key],
            decreases kept.len() - i,
        {
            let ghost before = members(table);
            proof {
                lemma_entry_in_map(kept@, i as int);
            }
            insert(&mut table, kept[i].0.clone(), kept[i].1.clone());
            proof {
                assert forall|key: Seq<char>| #[trigger]
                    members(table).contains_key(key) <==> exists|j: int|
                        0 <= j < i + 1 && (#[trigger] kept@[j]).0@ == key by {
                    if exists|j: int| 0 <= j < i && (#[trigger] kept@[j]).0@ == key {
                        let j = choose|j: int| 0 <= j < i && (#[trigger] kept@[j]).0@ == key;
                        assert(0 <= j < i + 1 && kept@[j].0@ == key);
                    }
                    if key == kept@[i as int].0@ {
                        assert(0 <= i < i + 1 && kept@[i as int].0@ == key);
                    }
                    if exists|j: int| 0 <= j < i + 1 && (#[trigger] kept@[j]).0@ == key {
                        let j = choose|j: int| 0 <= j < i + 1 && (#[trigger] kept@[j]).0@ == key;
                        if j < i {
                            assert(0 <= j < i && kept@[j].0@ == key);
                        }
                    }
                    assert(before.contains_key(key) <==> exists|j: int|
                        0 <= j < i && (#[trigger] kept@[j]).0@ == key);
                }
                assert forall|key: Seq<char>| #[trigger]
                    members(table).contains_key(key) implies members(table)[key]
                    == self.kept@[key] by {
                    if key != kept@[i as int].0@ {
                        assert(before.contains_key(key));
                    }
                }
            }
            i += 1;
        }
        proof {
            assert forall|key: Seq<char>| members(table).contains_key(key)
                <==> self.kept@.contains_key(key) by {
                if self.kept@.contains_key(key) {
                    assert(has_key(kept@, key));
                }
                if exists|j: int| 0 <= j < kept@.len() && (#[trigger] kept@[j]).0@ == key {
                    assert(has_key(kept@, key));
                }
            }
            assert(members(table) =~= self.kept@);
        }
        insert_actions(&mut table, &self.manifest);
        document_of(&self.manifest, table)
    }
}

/// The table of a page merged with a stored table is the stored table with
/// the page's table written over it.
pub proof fn lemma_merged_table(fresh: PageView, persisted: Map<Seq<char>, Json>)
    ensures
        page_json(spec_merge(fresh, persisted)) == page_document(
            fresh.manifest,
            persisted.union_prefer_right(fresh.kept).union_prefer_right(
                actions_json(fresh.manifest.actions),
            ),
        ),
{
    let own = actions_json(fresh.manifest.actions);
    let merged = spec_merge(fresh, persisted);
    assert(merged.kept.union_prefer_right(own) =~= persisted.union_prefer_right(
        fresh.kept,
    ).union_prefer_right(own));
}

} // verus!
