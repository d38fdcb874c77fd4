//! Reading the emotes of a channel out of the HTML of its memberships page:
//! the page carries its data as a JSON document inside a script.

use crate::action::Emote;
use crate::json::{
    as_array, as_str, from_str, json_view, json_views, parsed, pointed, pointer, Json,
};
use crate::text::{chars_of, find, first_index, occurs_at, text_between};
use serde_json::Value;
use vstd::prelude::*;

verus! {

/// Why no emotes could be read from a page.
#[derive(Clone, Copy, Debug, PartialEq, Eq, Structural)]
pub enum ParseError {
    /// The page holds no `ytInitialData`.
    NoInitialData,
    /// The data is not followed by the end of its script.
    NoEnd,
    /// The data is not JSON.
    InvalidJson,
    /// The data holds no tabs.
    NoTabs,
    /// The tabs of the data are not an array.
    TabsNotArray,
    /// An image has no label.
    NoLabel,
    /// The label of an image is not a string.
    LabelNotString,
    /// An image has no address.
    NoUrl,
    /// The address of an image is not a string.
    UrlNotString,
    /// The data holds no images.
    NoEmotes,
}

impl ParseError {
    /// The failure in words.
    pub fn message(&self) -> (r: &'static str)
        ensures
            r@ == match *self {
                ParseError::NoInitialData => "failed to find ytInitialData"@,
                ParseError::NoEnd => "failed to find ending semicolon"@,
                ParseError::InvalidJson => "failed to parse ytInitialData JSON"@,
                ParseError::NoTabs => "failed to find tab data in ytInitialData"@,
                ParseError::TabsNotArray => "failed to parse tabs as array"@,
                ParseError::NoLabel => "failed to find label"@,
                ParseError::LabelNotString => "failed to parse label as string"@,
                ParseError::NoUrl => "failed to find url"@,
                ParseError::UrlNotString => "failed to parse url as string"@,
                ParseError::NoEmotes => "failed to find emotes in JSON"@,
            },
    {
        match self {
            ParseError::NoInitialData => "failed to find ytInitialData",
            ParseError::NoEnd => "failed to find ending semicolon",
            ParseError::InvalidJson => "failed to parse ytInitialData JSON",
            ParseError::NoTabs => "failed to find tab data in ytInitialData",
            ParseError::TabsNotArray => "failed to parse tabs as array",
            ParseError::NoLabel => "failed to find label",
            ParseError::LabelNotString => "failed to parse label as string",
            ParseError::NoUrl => "failed to find url",
            ParseError::UrlNotString => "failed to parse url as string",
            ParseError::NoEmotes => "failed to find emotes in JSON",
        }
    }
}

/// The text of the page's data: what stands between the first
/// `ytInitialData = ` and the first `;</script>` after it.
pub open spec fn spec_initial_data(html: Seq<char>) -> Result<Seq<char>, ParseError> {
    match first_index(html, "ytInitialData = "@, 0) {
        None => Err(ParseError::NoInitialData),
        Some(i) => match first_index(html, ";</script>"@, i + "ytInitialData = "@.len()) {
            None => Err(ParseError::NoEnd),
            Some(j) => Ok(html.subrange(i + "ytInitialData = "@.len(), j)),
        },
    }
}

/// Cuts the text of the page's data out of the page.
pub fn initial_data(html: &str) -> (r: Result<String, ParseError>)
    ensures
        match r {
            Ok(text) => spec_initial_data(html@) == Ok::<Seq<char>, ParseError>(text@),
            Err(e) => spec_initial_data(html@) == Err::<Seq<char>, ParseError>(e),
        },
{
    let text = chars_of(html);
    let start = chars_of("ytInitialData = ");
    let end = chars_of(";</script>");
    let i = match find(&text, &start, 0) {
        Some(i) => i,
        None => {
            return Err(ParseError::NoInitialData);
        },
    };
    assert(occurs_at(text@, start@, i as int));
    assert(i + start@.len() <= text@.len());
    assert(text@.len() == text.len());
    let from: usize = i + start.len();
    match find(&text, &end, from) {
        Some(j) => Ok(text_between(&text, from, j)),
        None => Err(ParseError::NoEnd),
    }
}

/// The elements of the array that `path` leads to inside `value`; none if
/// the path leads nowhere or to something else.
pub open spec fn elements_at(value: Json, path: Seq<char>) -> Seq<Json> {
    match pointed(value, path) {
        Some(Json::Array(elements)) => elements,
        _ => Seq::empty(),
    }
}

/// The elements that `path` leads to inside each of `values`, in order.
pub open spec fn gathered(values: Seq<Json>, path: Seq<char>) -> Seq<Json>
    decreases values.len(),
{
    if values.len() == 0 {
        Seq::empty()
    } else {
        gathered(values.drop_last(), path) + elements_at(values.last(), path)
    }
}

/// The JSON values that the references point to.
pub open spec fn referents(refs: Seq<&Value>) -> Seq<Json> {
    refs.map_values(|r: &Value| json_view(*r))
}

/// One more reference points to one more value.
proof fn lemma_referents_push(refs: Seq<&Value>, next: &Value)
    ensures
        referents(refs.push(next)) == referents(refs).push(json_view(*next)),
{
    assert(referents(refs.push(next)) =~= referents(refs).push(json_view(*next)));
}

/// Gathers the elements that `path` leads to inside each of `values`.
fn gather<'a>(values: &Vec<&'a Value>, path: &str) -> (r: Vec<&'a Value>)
    ensures
        referents(r@) == gathered(referents(values@), path@),
{
    let mut out: Vec<&'a Value> = Vec::new();
    let mut i: usize = 0;
    assert(referents(values@).take(0) =~= Seq::empty());
    assert(referents(out@) =~= Seq::empty());
    while i < values.len()
        invariant
            i <= values.len(),
            referents(out@) == gathered(referents(values@).take(i as int), path@),
        decreases values.len() - i,
    {
        let ghost before = referents(out@);
        let ghost upto = referents(values@).take(i + 1);
        proof {
            assert(upto.drop_last() =~= referents(values@).take(i as int));
            assert(upto.last() == json_view(*values@[i as int]));
        }
        let mut done = false;
        if let Some(target) = pointer(values[i], path) {
            if let Some(elements) = as_array(target) {
                let mut j: usize = 0;
                let ghost found = json_views(elements@);
                assert(referents(out@) =~= before + found.take(0));
                while j < elements.len()
                    invariant
                        j <= elements.len(),
                        found == json_views(elements@),
                        referents(out@) == before + found.take(j as int),
                    decreases elements.len() - j,
                {
                    proof {
                        lemma_referents_push(out@, &elements@[j as int]);
                    }
                    out.push(&elements[j]);
                    assert(referents(out@) =~= before + found.take(j + 1));
                    j += 1;
                }
                assert(found.take(found.len() as int) =~= found);
                done = true;
            }
        }
        if !done {
            assert(referents(out@) =~= before + Seq::<Json>::empty());
        }
        i += 1;
    }
    assert(referents(values@).take(values@.len() as int) =~= referents(values@));
    out
}

/// The images of the emotes, in order: in every tab, in every section of
/// the tab, in every perk of the section that can be expanded.
pub open spec fn image_nodes(tabs: Seq<Json>) -> Seq<Json> {
    gathered(
        gathered(
            gathered(tabs, "/tabRenderer/content/sectionListRenderer/contents"@),
            "/sponsorshipsExpandablePerksRenderer/expandableItems"@,
        ),
        "/sponsorshipsPerkRenderer/images"@,
    )
}

/// `text` up to its first `=`, or all of it if it has none.
pub open spec fn before_equals(text: Seq<char>) -> Seq<char> {
    match first_index(text, seq!['='], 0) {
        Some(i) => text.take(i),
        None => text,
    }
}

/// `text` up to its first `=`.
pub fn cut_at_equals(text: &str) -> (r: String)
    ensures
        r@ == before_equals(text@),
{
    let chars = chars_of(text);
    let mut sign: Vec<char> = Vec::new();
    sign.push('=');
    assert(sign@ =~= seq!['=']);
    match find(&chars, &sign, 0) {
        Some(i) => {
            let r = text_between(&chars, 0, i);
            assert(chars@.subrange(0, i as int) =~= chars@.take(i as int));
            r
        },
        None => text.to_owned(),
    }
}

/// The emote of an image: its label, and its address up to the first `=`.
pub open spec fn emote_of(node: Json) -> Result<(Seq<char>, Seq<char>), ParseError> {
    match pointed(node, "/accessibility/accessibilityData/label"@) {
        None => Err(ParseError::NoLabel),
        Some(Json::Text(name)) => match pointed(node, "/thumbnails/0/url"@) {
            None => Err(ParseError::NoUrl),
            Some(Json::Text(url)) => Ok((name, before_equals(url))),
            Some(_) => Err(ParseError::UrlNotString),
        },
        Some(_) => Err(ParseError::LabelNotString),
    }
}

/// Reads the emote of an image.
pub fn read_emote(node: &Value) -> (r: Result<Emote, ParseError>)
    ensures
        match r {
            Ok(emote) => emote_of(json_view(*node)) == Ok::<(Seq<char>, Seq<char>), ParseError>(
                (emote.name@, emote.url@),
            ),
            Err(e) => emote_of(json_view(*node)) == Err::<(Seq<char>, Seq<char>), ParseError>(e),
        },
{
    let label = match pointer(node, "/accessibility/accessibilityData/label") {
        Some(label) => label,
        None => {
            return Err(ParseError::NoLabel);
        },
    };
    let name = match as_str(label) {
        Some(name) => name.to_owned(),
        None => {
            return Err(ParseError::LabelNotString);
        },
    };
    let address = match pointer(node, "/thumbnails/0/url") {
        Some(address) => address,
        None => {
            return Err(ParseError::NoUrl);
        },
    };
    let full_url = match as_str(address) {
        Some(full_url) => full_url,
        None => {
            return Err(ParseError::UrlNotString);
        },
    };
    Ok(Emote { name, url: cut_at_equals(full_url) })
}

/// The emotes of the images `nodes`, or the failure of the first image that
/// has none.
pub open spec fn emotes_of(nodes: Seq<Json>) -> Result<Seq<(Seq<char>, Seq<char>)>, ParseError>
    decreases nodes.len(),
{
    if nodes.len() == 0 {
        Ok(Seq::empty())
    } else {
        match emotes_of(nodes.drop_last()) {
            Err(e) => Err(e),
            Ok(list) => match emote_of(nodes.last()) {
                Err(e) => Err(e),
                Ok(emote) => Ok(list.push(emote)),
            },
        }
    }
}

/// A failure among the first images is the failure of the whole.
proof fn lemma_first_failure(nodes: Seq<Json>, k: int, e: ParseError)
    requires
        0 <= k <= nodes.len(),
        emotes_of(nodes.take(k)) == Err::<Seq<(Seq<char>, Seq<char>)>, ParseError>(e),
    ensures
        emotes_of(nodes) == Err::<Seq<(Seq<char>, Seq<char>)>, ParseError>(e),
    decreases nodes.len() - k,
{
    if k == nodes.len() {
        assert(nodes.take(k) =~= nodes);
    } else {
        assert(nodes.take(k + 1).drop_last() =~= nodes.take(k));
        lemma_first_failure(nodes, k + 1, e);
    }
}

/// Emotes as pairs of label and address.
pub open spec fn emote_views(emotes: Seq<Emote>) -> Seq<(Seq<char>, Seq<char>)> {
    emotes.map_values(|emote: Emote| (emote.name@, emote.url@))
}

/// The emotes that a page's data holds. At least one is asked for.
pub open spec fn spec_emotes_in(doc: Json) -> Result<Seq<(Seq<char>, Seq<char>)>, ParseError> {
    match pointed(doc, "/contents/twoColumnBrowseResultsRenderer/tabs"@) {
        None => Err(ParseError::NoTabs),
        Some(Json::Array(tabs)) => match emotes_of(image_nodes(tabs)) {
            Err(e) => Err(e),
            Ok(list) => if list.len() == 0 {
                Err(ParseError::NoEmotes)
            } else {
                Ok(list)
            },
        },
        Some(_) => Err(ParseError::TabsNotArray),
    }
}

/// Reads the emotes out of a page's data.
pub fn emotes_in(doc: &Value) -> (r: Result<Vec<Emote>, ParseError>)
    ensures
        match r {
            Ok(emotes) => spec_emotes_in(json_view(*doc)) == Ok::<
                Seq<(Seq<char>, Seq<char>)>,
                ParseError,
            >(emote_views(emotes@)),
            Err(e) => spec_emotes_in(json_view(*doc)) == Err::<
                Seq<(Seq<char>, Seq<char>)>,
                ParseError,
            >(e),
        },
{
    let target = match pointer(doc, "/contents/twoColumnBrowseResultsRenderer/tabs") {
        Some(target) => target,
        None => {
            return Err(ParseError::NoTabs);
        },
    };
    let tabs = match as_array(target) {
        Some(tabs) => tabs,
        None => {
            return Err(ParseError::TabsNotArray);
        },
    };
    let mut all: Vec<&Value> = Vec::new();
    let mut t: usize = 0;
    let ghost held = json_views(tabs@);
    assert(referents(all@) =~= held.take(0));
    while t < tabs.len()
        invariant
            t <= tabs.len(),
            held == json_views(tabs@),
            referents(all@) == held.take(t as int),
        decreases tabs.len() - t,
    {
        proof {
            lemma_referents_push(all@, &tabs@[t as int]);
        }
        all.push(&tabs[t]);
        assert(referents(all@) =~= held.take(t + 1));
        t += 1;
    }
    assert(held.take(held.len() as int) =~= held);
    let sections = gather(&all, "/tabRenderer/content/sectionListRenderer/contents");
    let perks = gather(&sections, "/sponsorshipsExpandablePerksRenderer/expandableItems");
    let images = gather(&perks, "/sponsorshipsPerkRenderer/images");
    let ghost nodes = referents(images@);
    assert(nodes == image_nodes(held));
    let mut emotes: Vec<Emote> = Vec::new();
    let mut i: usize = 0;
    assert(nodes.take(0) =~= Seq::empty());
    assert(emote_views(emotes@) =~= Seq::empty());
    while i < images.len()
        invariant
            i <= images.len(),
            nodes == referents(images@),
            nodes == image_nodes(held),
            pointed(json_view(*doc), "/contents/twoColumnBrowseResultsRenderer/tabs"@) == Some(
                Json::Array(held),
            ),
            emotes@.len() == i,
            emotes_of(nodes.take(i as int)) == Ok::<Seq<(Seq<char>, Seq<char>)>, ParseError>(
                emote_views(emotes@),
            ),
        decreases images.len() - i,
    {
        let ghost before = emote_views(emotes@);
        proof {
            assert(nodes.take(i + 1).drop_last() =~= nodes.take(i as int));
            assert(nodes.take(i + 1).last() == json_view(*images@[i as int]));
        }
        match read_emote(images[i]) {
            Ok(emote) => {
                emotes.push(emote);
                assert(emote_views(emotes@) =~= before.push((emote.name@, emote.url@)));
            },
            Err(e) => {
                proof {
                    lemma_first_failure(nodes, i + 1, e);
                }
                return Err(e);
            },
        }
        i += 1;
    }
    assert(nodes.take(images@.len() as int) =~= nodes);
    if emotes.len() == 0 {
        Err(ParseError::NoEmotes)
    } else {
        Ok(emotes)
    }
}

/// The emotes of a page.
pub open spec fn spec_parse_emotes(html: Seq<char>) -> Result<
    Seq<(Seq<char>, Seq<char>)>,
    ParseError,
> {
    match spec_initial_data(html) {
        Err(e) => Err(e),
        Ok(text) => match parsed(text) {
            None => Err(ParseError::InvalidJson),
            Some(doc) => spec_emotes_in(doc),
        },
    }
}

/// Reads the emotes of a channel out of the HTML of its memberships page.
pub fn parse_emotes(html: &str) -> (r: Result<Vec<Emote>, ParseError>)
    ensures
        match r {
            Ok(emotes) => spec_parse_emotes(html@) == Ok::<
                Seq<(Seq<char>, Seq<char>)>,
                ParseError,
            >(emote_views(emotes@)),
            Err(e) => spec_parse_emotes(html@) == Err::<Seq<(Seq<char>, Seq<char>)>, ParseError>(
                e,
            ),
        },
{
    let text = match initial_data(html) {
        Ok(text) => text,
        Err(e) => {
            return Err(e);
        },
    };
    match from_str(text.as_str()) {
        Ok(doc) => emotes_in(&doc),
        Err(_) => Err(ParseError::InvalidJson),
    }
}

} // verus!
