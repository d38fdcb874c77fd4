//! Merging a freshly laid out page with the buttons of an earlier stored
//! version of it: what the layout produced stays, and what only the stored
//! version held is kept as it was found.

use crate::action::ActionView;
use crate::action_map::ActionMap;
use crate::grid::{position_key, Position};
use crate::json::{as_object, entries, from_str, json_view, parsed, pointed, pointer, Json};
use crate::manifest::{ManifestView, ProfileManifest};
use crate::records::{distinct_keys, entries_map, has_key, lemma_entry_in_map, RecordMap};
use crate::text::str_eq;
use serde_json::Value;
use vstd::prelude::*;

verus! {

/// The buttons of an earlier stored version of a page, as found: `None`
/// where the stored page holds no table of buttons.
pub struct PersistedPage {
    pub actions: Option<RecordMap>,
}

impl View for PersistedPage {
    type V = Option<Map<Seq<char>, Json>>;

    open spec fn view(&self) -> Option<Map<Seq<char>, Json>> {
        match self.actions {
            Some(records) => Some(records@),
            None => None,
        }
    }
}

/// The table of buttons of a stored page: the object under the member
/// `Actions` of the document, if there is one.
pub open spec fn stored_actions(doc: Json) -> Option<Map<Seq<char>, Json>> {
    match pointed(doc, "/Actions"@) {
        Some(Json::Object(held)) => Some(held),
        _ => None,
    }
}

impl PersistedPage {
    /// Reads the buttons of a stored page out of its document.
    pub fn from_json(doc: &Value) -> (r: Self)
        ensures
            r@ == stored_actions(json_view(*doc)),
    {
        let table = match pointer(doc, "/Actions") {
            Some(table) => table,
            None => {
                return PersistedPage { actions: None };
            },
        };
        let object = match as_object(table) {
            Some(object) => object,
            None => {
                return PersistedPage { actions: None };
            },
        };
        let mut found = entries(object);
        let ghost all = found@;
        let ghost wanted = json_view(*table)->Object_0;
        let mut records = RecordMap::new();
        while found.len() > 0
            invariant
                found@.len() <= all.len(),
                found@ == all.take(found@.len() as int),
                forall|i: int, j: int|
                    0 <= i < j < all.len() ==> (#[trigger] all[i]).0@ != (#[trigger] all[j]).0@,
                forall|i: int|
                    0 <= i < all.len() ==> wanted.contains_key(#[trigger] all[i].0@)
                        && wanted[all[i].0@] == json_view(all[i].1),
                forall|k: Seq<char>|
                    records@.contains_key(k) <==> exists|i: int|
                        found@.len() <= i < all.len() && (#[trigger] all[i]).0@ == k,
                forall|k: Seq<char>| records@.contains_key(k) ==> records@[k] == wanted[k],
            decreases found.len(),
        {
            let ghost before = records@;
            let ghost prev = found@;
            let (key, record) = found.pop().unwrap();
            let ghost n = found@.len() as int;
            assert(all[n] == (key, record)) by {
                assert(prev[n] == all.take(prev.len() as int)[n]);
            }
            assert(found@ =~= all.take(n));
            assert(!before.contains_key(key@)) by {
                if before.contains_key(key@) {
                    let i = choose|i: int| n + 1 <= i < all.len() && (#[trigger] all[i]).0@ == key@;
                    assert(all[n].0@ != all[i].0@);
                }
            }
            let _ = records.insert_new(key, record);
            proof {
                assert forall|k: Seq<char>| records@.contains_key(k) <==> exists|i: int|
                    n <= i < all.len() && (#[trigger] all[i]).0@ == k by {
                    if records@.contains_key(k) {
                        if k == key@ {
                            assert(all[n].0@ == k);
                        } else {
                            let i = choose|i: int|
                                n + 1 <= i < all.len() && (#[trigger] all[i]).0@ == k;
                            assert(n <= i < all.len() && all[i].0@ == k);
                        }
                    }
                    if exists|i: int| n <= i < all.len() && (#[trigger] all[i]).0@ == k {
                        let i = choose|i: int| n <= i < all.len() && (#[trigger] all[i]).0@ == k;
                        if i != n {
                            assert(n + 1 <= i < all.len() && all[i].0@ == k);
                        }
                    }
                }
            }
        }
        proof {
            assert forall|k: Seq<char>| wanted.contains_key(k) implies records@.contains_key(k) by {
                let i = choose|i: int| 0 <= i < all.len() && (#[trigger] all[i]).0@ == k;
                assert(0 <= i < all.len() && all[i].0@ == k);
            }
            assert forall|k: Seq<char>| records@.contains_key(k) implies wanted.contains_key(k) by {
                let i = choose|i: int| 0 <= i < all.len() && (#[trigger] all[i]).0@ == k;
                assert(wanted.contains_key(all[i].0@));
            }
            assert(records@ =~= wanted);
        }
        PersistedPage { actions: Some(records) }
    }
}

/// A page with what it keeps from an earlier stored version of it.
pub struct Page {
    /// The page as the layout produced it.
    pub manifest: ProfileManifest,
    /// The stored buttons that the layout put nothing in place of.
    pub kept: RecordMap,
}

/// A `Page` as plain values.
pub struct PageView {
    pub manifest: ManifestView,
    pub kept: Map<Seq<char>, Json>,
}

impl View for Page {
    type V = PageView;

    open spec fn view(&self) -> PageView {
        PageView { manifest: self.manifest@, kept: self.kept@ }
    }
}

/// The keys of the buttons that the layout produced.
pub open spec fn position_keys(actions: Map<Position, ActionView>) -> Set<Seq<char>> {
    Set::new(
        |k: Seq<char>|
            exists|p: Position| #[trigger] actions.contains_key(p) && position_key(p) == k,
    )
}

/// The keys of all buttons of a page.
pub open spec fn page_keys(page: PageView) -> Set<Seq<char>> {
    position_keys(page.manifest.actions).union(page.kept.dom())
}

/// The page `fresh` merged with the stored buttons `persisted`: the page
/// itself with, in addition, every stored button whose key the page lacks.
pub open spec fn spec_merge(fresh: PageView, persisted: Map<Seq<char>, Json>) -> PageView {
    PageView {
        manifest: fresh.manifest,
        kept: persisted.remove_keys(page_keys(fresh)).union_prefer_right(fresh.kept),
    }
}

/// Why a stored page could not be merged.
#[derive(Clone, Copy, Debug, PartialEq, Eq, Structural)]
pub enum Malformation {
    /// The stored text is not JSON.
    InvalidJson,
    /// The stored document holds no table of buttons.
    InvalidActions,
}

/// The stored version of a page could not be read. The page itself comes
/// back untouched, to be used alone.
pub struct MalformedPersistedState {
    pub reason: Malformation,
    pub fresh: Page,
}

impl MalformedPersistedState {
    /// The failure in words.
    pub fn message(&self) -> (r: &'static str)
        ensures
            r@ == match self.reason {
                Malformation::InvalidJson => "Invalid JSON"@,
                Malformation::InvalidActions =>
                    "Existing manifest file has invalid `Actions` field"@,
            },
    {
        match self.reason {
            Malformation::InvalidJson => "Invalid JSON",
            Malformation::InvalidActions => "Existing manifest file has invalid `Actions` field",
        }
    }
}

/// Whether the layout produced a button that is stored under `key`.
pub fn is_position_key(actions: &ActionMap, key: &str) -> (r: bool)
    ensures
        r == position_keys(actions@).contains(key@),
{
    let positions = actions.positions();
    let mut i: usize = 0;
    while i < positions.len()
        invariant
            i <= positions.len(),
            forall|p: Position| positions@.contains(p) <==> actions@.contains_key(p),
            forall|j: int| 0 <= j < i ==> position_key(#[trigger] positions@[j]) != key@,
        decreases positions.len() - i,
    {
        let stored_under = positions[i].to_string();
        if str_eq(stored_under.as_str(), key) {
            proof {
                assert(positions@.contains(positions@[i as int]));
                assert(actions@.contains_key(positions@[i as int]));
            }
            return true;
        }
        i += 1;
    }
    proof {
        if position_keys(actions@).contains(key@) {
            let p = choose|p: Position|
                #[trigger] actions@.contains_key(p) && position_key(p) == key@;
            assert(positions@.contains(p));
            let j = choose|j: int| 0 <= j < positions@.len() && positions@[j] == p;
            assert(position_key(positions@[j]) != key@);
        }
    }
    false
}

impl Page {
    /// A page that keeps nothing from an earlier version.
    pub fn fresh(manifest: ProfileManifest) -> (r: Self)
        ensures
            r.manifest == manifest,
            r@ == (PageView { manifest: manifest@, kept: Map::empty() }),
    {
        Page { manifest, kept: RecordMap::new() }
    }

    /// Whether the page holds a button under `key`.
    pub fn contains_key(&self, key: &str) -> (r: bool)
        ensures
            r == page_keys(self@).contains(key@),
    {
        self.kept.contains_key(key) || is_position_key(&self.manifest.actions, key)
    }
}

/// Merges a page with the buttons of its stored version, if there is one.
/// Without a stored version the page comes back as it is. A stored version
/// without a table of buttons is malformed.
pub fn merge(fresh: Page, persisted: Option<PersistedPage>) -> (r: Result<
    Page,
    MalformedPersistedState,
>)
    ensures
        match r {
            Ok(page) => match persisted {
                None => page == fresh,
                Some(stored) => stored@ is Some && page@ == spec_merge(fresh@, stored@->0),
            },
            Err(e) => persisted is Some && persisted->0@ is None && e.reason
                == Malformation::InvalidActions && e.fresh == fresh,
        },
{
    let stored = match persisted {
        Some(stored) => stored,
        None => {
            return Ok(fresh);
        },
    };
    let records = match stored.actions {
        Some(records) => records,
        None => {
            return Err(MalformedPersistedState { reason: Malformation::InvalidActions, fresh });
        },
    };
    let ghost start = fresh@;
    let ghost old_keys = page_keys(fresh@);
    let ghost persisted_map = records@;
    let mut found = records.into_entries();
    let ghost all = found@;
    let mut page = fresh;
    while found.len() > 0
        invariant
            found@.len() <= all.len(),
            found@ == all.take(found@.len() as int),
            distinct_keys(all),
            entries_map(all) == persisted_map,
            old_keys == page_keys(start),
            page.manifest@ == start.manifest,
            forall|k: Seq<char>| #[trigger]
                page.kept@.contains_key(k) <==> start.kept.contains_key(k) || (!old_keys.contains(
                    k,
                ) && has_key_from(all, found@.len() as int, k)),
            forall|k: Seq<char>| #[trigger]
                page.kept@.contains_key(k) ==> page.kept@[k] == if start.kept.contains_key(k) {
                    start.kept[k]
                } else {
                    persisted_map[k]
                },
        decreases found.len(),
    {
        let ghost before = page.kept@;
        let ghost prev = found@;
        let (key, record) = found.pop().unwrap();
        let ghost n = found@.len() as int;
        proof {
            assert(all[n] == (key, record)) by {
                assert(prev[n] == all.take(prev.len() as int)[n]);
            }
            assert(found@ =~= all.take(n));
            lemma_entry_in_map(all, n);
            lemma_key_from(all, n);
            assert(!has_key_from(all, n + 1, key@));
            assert(before.contains_key(key@) <==> start.kept.contains_key(key@));
            assert(page_keys(page@).contains(key@) <==> old_keys.contains(key@));
        }
        if !page.contains_key(key.as_str()) {
            let _ = page.kept.insert_new(key, record);
        }
        proof {
            assert forall|k: Seq<char>| #[trigger]
                page.kept@.contains_key(k) <==> start.kept.contains_key(k) || (!old_keys.contains(
                    k,
                ) && has_key_from(all, n, k)) by {
                assert(before.contains_key(k) <==> start.kept.contains_key(k) || (
                !old_keys.contains(k) && has_key_from(all, n + 1, k)));
            }
            assert forall|k: Seq<char>| #[trigger]
                page.kept@.contains_key(k) implies page.kept@[k] == if start.kept.contains_key(
                k,
            ) {
                start.kept[k]
            } else {
                persisted_map[k]
            } by {
                if k != key@ || before.contains_key(k) {
                    assert(before.contains_key(k));
                }
            }
        }
    }
    proof {
        let wanted = spec_merge(start, persisted_map).kept;
        assert forall|k: Seq<char>| page.kept@.contains_key(k) <==> wanted.contains_key(k) by {
            assert(has_key_from(all, 0, k) <==> has_key(all, k));
        }
        assert(page.kept@ =~= wanted);
    }
    Ok(page)
}

/// Whether an entry of `all` from index `from` on has the key `k`.
pub open spec fn has_key_from(all: Seq<(String, Value)>, from: int, k: Seq<char>) -> bool {
    exists|i: int| from <= i < all.len() && (#[trigger] all[i]).0@ == k
}

/// The keys from index `n` on are the key at `n` and the keys after it, and
/// the key at `n` does not come again.
proof fn lemma_key_from(all: Seq<(String, Value)>, n: int)
    requires
        distinct_keys(all),
        0 <= n < all.len(),
    ensures
        !has_key_from(all, n + 1, all[n].0@),
        forall|k: Seq<char>|
            has_key_from(all, n, k) <==> k == all[n].0@ || #[trigger] has_key_from(all, n + 1, k),
{
    if has_key_from(all, n + 1, all[n].0@) {
        let i = choose|i: int| n + 1 <= i < all.len() && (#[trigger] all[i]).0@ == all[n].0@;
        assert(all[n].0@ != all[i].0@);
    }
    assert forall|k: Seq<char>|
        has_key_from(all, n, k) <==> k == all[n].0@ || #[trigger] has_key_from(all, n + 1, k) by {
        if has_key_from(all, n, k) {
            let i = choose|i: int| n <= i < all.len() && (#[trigger] all[i]).0@ == k;
            if i != n {
                assert(n + 1 <= i < all.len() && all[i].0@ == k);
            }
        }
        if has_key_from(all, n + 1, k) {
            let i = choose|i: int| n + 1 <= i < all.len() && (#[trigger] all[i]).0@ == k;
            assert(n <= i < all.len() && all[i].0@ == k);
        }
        if k == all[n].0@ {
            assert(n <= n < all.len() && all[n].0@ == k);
        }
    }
}

/// Merges a page with the stored text of its earlier version, if there is
/// one. The text is malformed if it is not JSON or holds no table of
/// buttons.
pub fn merge_stored(fresh: Page, stored: Option<&str>) -> (r: Result<Page, MalformedPersistedState>)
    ensures
        match r {
            Ok(page) => match stored {
                None => page == fresh,
                Some(text) => parsed(text@) is Some && stored_actions(parsed(text@)->0) is Some
                    && page@ == spec_merge(fresh@, stored_actions(parsed(text@)->0)->0),
            },
            Err(e) => stored is Some && e.fresh == fresh && e.reason == (if parsed(stored->0@)
                is None {
                Malformation::InvalidJson
            } else {
                Malformation::InvalidActions
            }) && (parsed(stored->0@) is Some ==> stored_actions(parsed(stored->0@)->0) is None),
        },
{
    let text = match stored {
        Some(text) => text,
        None => {
            return Ok(fresh);
        },
    };
    match from_str(text) {
        Ok(doc) => merge(fresh, Some(PersistedPage::from_json(&doc))),
        Err(_) => Err(MalformedPersistedState { reason: Malformation::InvalidJson, fresh }),
    }
}

/// A merge takes nothing away: the merged page is the page as the layout
/// produced it, keeps every button that the page kept before, and no button
/// of the stored version stands in place of one of the page's own.
pub proof fn lemma_merge_keeps(fresh: PageView, persisted: Map<Seq<char>, Json>)
    ensures
        spec_merge(fresh, persisted).manifest == fresh.manifest,
        fresh.kept.submap_of(spec_merge(fresh, persisted).kept),
        page_keys(fresh).subset_of(page_keys(spec_merge(fresh, persisted))),
        page_keys(spec_merge(fresh, persisted)) == page_keys(fresh).union(persisted.dom()),
{
    let merged = spec_merge(fresh, persisted);
    assert(page_keys(merged) =~= page_keys(fresh).union(persisted.dom()));
}

/// Where the stored version holds a button under a key that the page
/// lacks, the keys of the merged page are a proper superset of the page's.
pub proof fn lemma_merge_adds(fresh: PageView, persisted: Map<Seq<char>, Json>, extra: Seq<char>)
    requires
        persisted.contains_key(extra),
        !page_keys(fresh).contains(extra),
    ensures
        page_keys(fresh).subset_of(page_keys(spec_merge(fresh, persisted))),
        page_keys(spec_merge(fresh, persisted)).contains(extra),
        page_keys(spec_merge(fresh, persisted)) != page_keys(fresh),
        spec_merge(fresh, persisted).kept[extra] == persisted[extra],
{
    lemma_merge_keeps(fresh, persisted);
}

/// Merging a second time with the same stored version changes nothing.
pub proof fn lemma_merge_idempotent(fresh: PageView, persisted: Map<Seq<char>, Json>)
    ensures
        spec_merge(spec_merge(fresh, persisted), persisted) == spec_merge(fresh, persisted),
{
    let once = spec_merge(fresh, persisted);
    let twice = spec_merge(once, persisted);
    lemma_merge_keeps(fresh, persisted);
    assert(twice.kept =~= once.kept);
}

} // verus!
