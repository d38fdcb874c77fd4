//! Where the pages of a chain are stored: each page in a directory of its
//! own, the directory of a page inside that of the page before it.

use crate::grid::{position_key, Position};
use crate::ident::{spec_uppercase_id, uppercase_id, uuid_bits};
use uuid::Uuid;
use vstd::prelude::*;
use vstd::string::*;

verus! {

/// The segments of a path as texts.
pub open spec fn segments(path: Seq<String>) -> Seq<Seq<char>> {
    path.map_values(|segment: String| segment@)
}

/// The identifiers in `ids`, by their bits.
pub open spec fn id_bits(ids: Seq<Uuid>) -> Seq<u128> {
    ids.map_values(|id: Uuid| uuid_bits(id))
}

/// The name of the directory of the page `id`.
pub open spec fn spec_profile_dir(id: u128) -> Seq<char> {
    spec_uppercase_id(id) + ".sdProfile"@
}

/// The name of the directory of the page `id`.
pub fn profile_dir(id: &Uuid) -> (r: String)
    ensures
        r@ == spec_profile_dir(uuid_bits(*id)),
{
    let mut name = uppercase_id(id);
    name.append(".sdProfile");
    name
}

/// The directory of page `depth` of the chain `ids`, from the directory of
/// all profiles: the first page's directory, and for every further page the
/// directory `Profiles` and in it the page's own.
pub open spec fn spec_page_path(ids: Seq<u128>, depth: int) -> Seq<Seq<char>>
    decreases depth,
{
    if depth <= 0 {
        seq![spec_profile_dir(ids[0])]
    } else {
        spec_page_path(ids, depth - 1).push("Profiles"@).push(spec_profile_dir(ids[depth]))
    }
}

/// Where the device software moves page `depth` to once it has taken the
/// chain in: beside the second page. Only pages after the second are moved.
pub open spec fn spec_unnested_path(ids: Seq<u128>, depth: int) -> Option<Seq<Seq<char>>> {
    if depth >= 2 {
        Some(seq![spec_profile_dir(ids[0]), "Profiles"@, spec_profile_dir(ids[depth])])
    } else {
        None
    }
}

/// Where a page is stored, and where it may have been moved to.
pub struct PagePlace {
    /// The page's directory.
    pub path: Vec<String>,
    /// The directory that the page is to be moved back from, if it is there.
    pub unnested: Option<Vec<String>>,
}

impl PagePlace {
    /// The directory that the page is to be moved back from, as texts.
    pub open spec fn unnested_view(&self) -> Option<Seq<Seq<char>>> {
        match self.unnested {
            Some(path) => Some(segments(path@)),
            None => None,
        }
    }
}

/// A copy of a path.
fn copy_path(path: &Vec<String>) -> (r: Vec<String>)
    ensures
        segments(r@) == segments(path@),
{
    let mut out: Vec<String> = Vec::new();
    let mut i: usize = 0;
    while i < path.len()
        invariant
            i <= path.len(),
            segments(out@) == segments(path@).take(i as int),
        decreases path.len() - i,
    {
        let ghost before = out@;
        let piece = path[i].clone();
        out.push(piece);
        assert(segments(out@) =~= segments(before).push(piece@));
        assert(segments(path@).take(i + 1) =~= segments(path@).take(i as int).push(
            path@[i as int]@,
        ));
        i += 1;
    }
    assert(segments(path@).take(path@.len() as int) =~= segments(path@));
    out
}

/// The places of the pages of a chain, in order.
pub fn page_places(ids: &Vec<Uuid>) -> (r: Vec<PagePlace>)
    ensures
        r@.len() == ids@.len(),
        forall|d: int|
            0 <= d < r@.len() ==> segments((#[trigger] r@[d]).path@) == spec_page_path(
                id_bits(ids@),
                d,
            ),
        forall|d: int|
            0 <= d < r@.len() ==> (#[trigger] r@[d]).unnested_view() == spec_unnested_path(
                id_bits(ids@),
                d,
            ),
{
    let mut places: Vec<PagePlace> = Vec::new();
    let mut current: Vec<String> = Vec::new();
    let mut d: usize = 0;
    while d < ids.len()
        invariant
            d <= ids.len(),
            places@.len() == d,
            d > 0 ==> segments(current@) == spec_page_path(id_bits(ids@), d - 1),
            d == 0 ==> current@.len() == 0,
            forall|k: int|
                0 <= k < d ==> segments((#[trigger] places@[k]).path@) == spec_page_path(
                    id_bits(ids@),
                    k,
                ),
            forall|k: int|
                0 <= k < d ==> (#[trigger] places@[k]).unnested_view() == spec_unnested_path(
                    id_bits(ids@),
                    k,
                ),
        decreases ids.len() - d,
    {
        let ghost before = segments(current@);
        let own = profile_dir(&ids[d]);
        if d > 0 {
            current.push("Profiles".to_owned());
        }
        current.push(own);
        proof {
            if d > 0 {
                assert(segments(current@) =~= before.push("Profiles"@).push(
                    spec_profile_dir(uuid_bits(ids@[d as int])),
                ));
            } else {
                assert(segments(current@) =~= seq![spec_profile_dir(uuid_bits(ids@[0]))]);
            }
        }
        let unnested = if d >= 2 {
            let mut beside: Vec<String> = Vec::new();
            beside.push(profile_dir(&ids[0]));
            beside.push("Profiles".to_owned());
            beside.push(profile_dir(&ids[d]));
            assert(segments(beside@) =~= seq![
                spec_profile_dir(uuid_bits(ids@[0])),
                "Profiles"@,
                spec_profile_dir(uuid_bits(ids@[d as int])),
            ]);
            Some(beside)
        } else {
            None
        };
        places.push(PagePlace { path: copy_path(&current), unnested });
        d += 1;
    }
    places
}

/// Where the image of the button at `position` is stored inside its page's
/// directory.
pub open spec fn spec_image_path(position: Position) -> Seq<Seq<char>> {
    seq![position_key(position), "CustomImages"@, "state0.png"@]
}

/// Where the image of the button at `position` is stored inside its page's
/// directory.
pub fn image_path(position: Position) -> (r: Vec<String>)
    ensures
        segments(r@) == spec_image_path(position),
{
    let mut path: Vec<String> = Vec::new();
    path.push(position.to_string());
    path.push("CustomImages".to_owned());
    path.push("state0.png".to_owned());
    assert(segments(path@) =~= spec_image_path(position));
    path
}

/// The kind of system that the program runs on.
#[derive(Clone, Copy, Debug, PartialEq, Eq, Structural)]
pub enum Platform {
    MacOs,
    Windows,
    Other,
}

/// Where the device software keeps its profiles, from the user's home
/// directory, where that is known.
pub open spec fn spec_default_profiles_dir(platform: Platform) -> Option<Seq<Seq<char>>> {
    match platform {
        Platform::MacOs => Some(
            seq!["Library"@, "Application Support"@, "com.elgato.StreamDeck"@, "ProfilesV2"@],
        ),
        Platform::Other => Some(seq!["%AppData%"@, "Roaming"@, "StreamDeck"@, "ProfilesV2"@]),
        Platform::Windows => None,
    }
}

/// `spec_default_profiles_dir` of an optional path.
pub open spec fn path_view(path: Option<Vec<String>>) -> Option<Seq<Seq<char>>> {
    match path {
        Some(path) => Some(segments(path@)),
        None => None,
    }
}

/// Where the device software keeps its profiles, from the user's home
/// directory.
pub fn default_profiles_dir(platform: Platform) -> (r: Option<Vec<String>>)
    ensures
        path_view(r) == spec_default_profiles_dir(platform),
{
    let mut path: Vec<String> = Vec::new();
    match platform {
        Platform::MacOs => {
            path.push("Library".to_owned());
            path.push("Application Support".to_owned());
            path.push("com.elgato.StreamDeck".to_owned());
            path.push("ProfilesV2".to_owned());
            assert(segments(path@) =~= seq![
                "Library"@,
                "Application Support"@,
                "com.elgato.StreamDeck"@,
                "ProfilesV2"@,
            ]);
            Some(path)
        },
        Platform::Other => {
            path.push("%AppData%".to_owned());
            path.push("Roaming".to_owned());
            path.push("StreamDeck".to_owned());
            path.push("ProfilesV2".to_owned());
            assert(segments(path@) =~= seq![
                "%AppData%"@,
                "Roaming"@,
                "StreamDeck"@,
                "ProfilesV2"@,
            ]);
            Some(path)
        },
        Platform::Windows => None,
    }
}

} // verus!
