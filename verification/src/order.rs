//! Putting emotes in the order in which they are to be laid out: those
//! named first go to the front, those named last to the back, and the rest
//! keep their order in between.

use crate::action::Emote;
use crate::text::{chars_of, text_between};
use vstd::prelude::*;

verus! {

/// `c` in lower case if it is an ASCII upper-case letter, else `c` itself.
pub open spec fn spec_ascii_lower(c: char) -> char {
    if 'A' <= c && c <= 'Z' {
        ((c as u8) + 32) as char
    } else {
        c
    }
}

/// `text` with its ASCII upper-case letters in lower case.
pub open spec fn ascii_lowercase(text: Seq<char>) -> Seq<char> {
    text.map_values(|c: char| spec_ascii_lower(c))
}

/// The characters of `text`, ASCII upper-case letters in lower case.
pub fn ascii_lower_chars(text: &str) -> (r: Vec<char>)
    ensures
        r@ == ascii_lowercase(text@),
{
    let chars = chars_of(text);
    let mut out: Vec<char> = Vec::new();
    let mut i: usize = 0;
    while i < chars.len()
        invariant
            i <= chars.len(),
            chars@ == text@,
            out@ == ascii_lowercase(text@).take(i as int),
        decreases chars.len() - i,
    {
        let c = chars[i];
        let lower = if 'A' <= c && c <= 'Z' {
            ((c as u8) + 32u8) as char
        } else {
            c
        };
        out.push(lower);
        assert(out@ =~= ascii_lowercase(text@).take(i + 1));
        i += 1;
    }
    assert(ascii_lowercase(text@).take(chars@.len() as int) =~= ascii_lowercase(text@));
    out
}

/// `prefix` without its leading underscore, if it has one.
pub fn strip_underscore(prefix: &str) -> (r: Option<String>)
    ensures
        match r {
            Some(rest) => prefix@.len() > 0 && prefix@[0] == '_' && rest@ == prefix@.skip(1),
            None => prefix@.len() == 0 || prefix@[0] != '_',
        },
{
    let chars = chars_of(prefix);
    if chars.len() > 0 && chars[0] == '_' {
        let rest = text_between(&chars, 1, chars.len());
        assert(chars@.subrange(1, chars@.len() as int) =~= prefix@.skip(1));
        Some(rest)
    } else {
        None
    }
}

/// Whether `names[i]` is `name` but for the case of ASCII letters.
pub open spec fn names_it(names: Seq<Seq<char>>, name: Seq<char>, i: int) -> bool {
    0 <= i < names.len() && ascii_lowercase(names[i]) == ascii_lowercase(name)
}

/// Whether `i` is the first place at which `names` holds `name`, but for the
/// case of ASCII letters.
pub open spec fn is_first_named(names: Seq<Seq<char>>, name: Seq<char>, i: int) -> bool {
    names_it(names, name, i) && forall|j: int| 0 <= j < i ==> !names_it(names, name, j)
}

/// The first place at which `names` holds `name`, but for the case of ASCII
/// letters.
pub open spec fn first_named(names: Seq<Seq<char>>, name: Seq<char>) -> Option<int> {
    if exists|i: int| is_first_named(names, name, i) {
        Some(choose|i: int| is_first_named(names, name, i))
    } else {
        None
    }
}

/// The texts of a list of names.
pub open spec fn name_views(names: Seq<String>) -> Seq<Seq<char>> {
    names.map_values(|name: String| name@)
}

/// Whether two texts hold the same characters.
fn same_chars(a: &Vec<char>, b: &Vec<char>) -> (r: bool)
    ensures
        r == (a@ == b@),
{
    if a.len() != b.len() {
        return false;
    }
    let mut i: usize = 0;
    while i < a.len()
        invariant
            i <= a.len(),
            a.len() == b.len(),
            forall|j: int| 0 <= j < i ==> a@[j] == b@[j],
        decreases a.len() - i,
    {
        if a[i] != b[i] {
            return false;
        }
        i += 1;
    }
    assert(a@ =~= b@);
    true
}

/// Finds the first place at which `names` holds `name`, but for the case of
/// ASCII letters.
pub fn position_of(names: &Vec<String>, name: &str) -> (r: Option<usize>)
    ensures
        match r {
            Some(i) => first_named(name_views(names@), name@) == Some(i as int),
            None => first_named(name_views(names@), name@) is None,
        },
{
    let wanted = ascii_lower_chars(name);
    let ghost views = name_views(names@);
    let mut i: usize = 0;
    while i < names.len()
        invariant
            i <= names.len(),
            views == name_views(names@),
            wanted@ == ascii_lowercase(name@),
            forall|j: int| 0 <= j < i ==> !names_it(views, name@, j),
        decreases names.len() - i,
    {
        let candidate = ascii_lower_chars(names[i].as_str());
        assert(views[i as int] == names@[i as int]@);
        if same_chars(&candidate, &wanted) {
            proof {
                assert(is_first_named(views, name@, i as int));
                let j = choose|j: int| is_first_named(views, name@, j);
                if j < i {
                    assert(!names_it(views, name@, j));
                } else if i < j {
                    assert(!names_it(views, name@, i as int));
                }
            }
            return Some(i);
        }
        i += 1;
    }
    None
}

/// The rank by which an emote is ordered among `count` emotes: its place in
/// the list of those to come first; else `count`, and in addition one more
/// than its place in the list of those to come last if it is there.
pub open spec fn spec_rank(
    name: Seq<char>,
    prioritize: Seq<Seq<char>>,
    deprioritize: Seq<Seq<char>>,
    count: nat,
) -> nat {
    match first_named(prioritize, name) {
        Some(place) => place as nat,
        None => match first_named(deprioritize, name) {
            Some(place) => (place + count + 1) as nat,
            None => count,
        },
    }
}

/// The rank by which the emote `name` is ordered among `count` emotes.
pub fn rank(name: &str, prioritize: &Vec<String>, deprioritize: &Vec<String>, count: usize) -> (r:
    u128)
    ensures
        r == spec_rank(name@, name_views(prioritize@), name_views(deprioritize@), count as nat),
{
    if let Some(place) = position_of(prioritize, name) {
        return place as u128;
    }
    if let Some(place) = position_of(deprioritize, name) {
        return place as u128 + count as u128 + 1;
    }
    count as u128
}

/// Whether item `x` comes before item `y`: by rank, and by place among items
/// of one rank.
pub open spec fn comes_before(ranks: Seq<nat>, x: int, y: int) -> bool {
    ranks[x] < ranks[y] || (ranks[x] == ranks[y] && x < y)
}

/// Whether `order` lists the places of the first `ranks.len()` items, each
/// once, in the order of `comes_before`.
pub open spec fn is_ordering(order: Seq<int>, ranks: Seq<nat>) -> bool {
    &&& order.len() == ranks.len()
    &&& forall|a: int| 0 <= a < order.len() ==> 0 <= #[trigger] order[a] < ranks.len()
    &&& forall|a: int, b: int|
        0 <= a < b < order.len() ==> comes_before(ranks, #[trigger] order[a], #[trigger] order[b])
}

/// The ranks of the emotes.
pub open spec fn spec_ranks(
    emotes: Seq<Emote>,
    prioritize: Seq<Seq<char>>,
    deprioritize: Seq<Seq<char>>,
) -> Seq<nat> {
    Seq::new(
        emotes.len(),
        |i: int| spec_rank(emotes[i].name@, prioritize, deprioritize, emotes.len()),
    )
}

/// The places of the items in the order of their ranks; items of one rank
/// keep their order.
fn ordering(ranks: &Vec<u128>) -> (r: Vec<usize>)
    ensures
        is_ordering(places(r@), rank_views(ranks@)),
{
    let mut order: Vec<usize> = Vec::new();
    let mut next: usize = 0;
    while next < ranks.len()
        invariant
            next <= ranks.len(),
            order@.len() == next,
            forall|a: int| 0 <= a < order@.len() ==> #[trigger] order@[a] < next,
            forall|a: int, b: int|
                0 <= a < b < order@.len() ==> comes_before(
                    rank_views(ranks@),
                    #[trigger] order@[a] as int,
                    #[trigger] order@[b] as int,
                ),
        decreases ranks.len() - next,
    {
        let mut at: usize = order.len();
        while at > 0 && ranks[order[at - 1]] > ranks[next]
            invariant
                at <= order@.len(),
                next < ranks.len(),
                forall|a: int| 0 <= a < order@.len() ==> #[trigger] order@[a] < next,
                forall|a: int| at <= a < order@.len() ==> ranks@[#[trigger] order@[a] as int]
                    > ranks@[next as int],
            decreases at,
        {
            at -= 1;
        }
        let ghost before = order@;
        order.insert(at, next);
        proof {
            let views = rank_views(ranks@);
            assert forall|a: int, b: int| 0 <= a < b < order@.len() implies comes_before(
                views,
                #[trigger] order@[a] as int,
                #[trigger] order@[b] as int,
            ) by {
                let a0 = if a < at { a } else { a - 1 };
                let b0 = if b < at { b } else { b - 1 };
                if a != at && b != at {
                    assert(comes_before(views, before[a0] as int, before[b0] as int));
                } else if a == at {
                    assert(ranks@[before[b0] as int] > ranks@[next as int]);
                } else {
                    if at > 0 {
                        assert(comes_before(views, before[a] as int, before[at - 1] as int) || a
                            == at - 1);
                    }
                }
            }
        }
        next += 1;
    }
    assert(places(order@).len() == rank_views(ranks@).len());
    order
}

/// Places as mathematical integers.
pub open spec fn places(order: Seq<usize>) -> Seq<int> {
    order.map_values(|place: usize| place as int)
}

/// Ranks as natural numbers.
pub open spec fn rank_views(ranks: Seq<u128>) -> Seq<nat> {
    ranks.map_values(|rank: u128| rank as nat)
}

/// Puts the emotes in the order of their ranks; emotes of one rank keep
/// their order.
pub fn reorder(emotes: Vec<Emote>, prioritize: &Vec<String>, deprioritize: &Vec<String>) -> (r:
    Vec<Emote>)
    ensures
        r@.len() == emotes@.len(),
        exists|order: Seq<int>|
            is_ordering(
                order,
                spec_ranks(emotes@, name_views(prioritize@), name_views(deprioritize@)),
            ) && forall|i: int|
                0 <= i < r@.len() ==> (#[trigger] r@[i]).name@ == emotes@[order[i]].name@
                    && r@[i].url@ == emotes@[order[i]].url@,
{
    let count: usize = emotes.len();
    let ghost wanted = spec_ranks(emotes@, name_views(prioritize@), name_views(deprioritize@));
    let mut ranks: Vec<u128> = Vec::new();
    let mut i: usize = 0;
    while i < count
        invariant
            i <= count,
            count == emotes@.len(),
            wanted == spec_ranks(emotes@, name_views(prioritize@), name_views(deprioritize@)),
            rank_views(ranks@) == wanted.take(i as int),
        decreases count - i,
    {
        let next = rank(emotes[i].name.as_str(), prioritize, deprioritize, count);
        let ghost before = rank_views(ranks@);
        ranks.push(next);
        assert(wanted[i as int] == next as nat);
        assert(rank_views(ranks@) =~= before.push(next as nat));
        assert(wanted.take(i + 1) =~= wanted.take(i as int).push(wanted[i as int]));
        i += 1;
    }
    assert(wanted.take(count as int) =~= wanted);
    let order = ordering(&ranks);
    let mut out: Vec<Emote> = Vec::new();
    let mut k: usize = 0;
    while k < count
        invariant
            k <= count,
            count == emotes@.len(),
            out@.len() == k,
            is_ordering(places(order@), wanted),
            wanted.len() == count,
            forall|j: int|
                0 <= j < k ==> (#[trigger] out@[j]).name@ == emotes@[places(order@)[j]].name@
                    && out@[j].url@ == emotes@[places(order@)[j]].url@,
        decreases count - k,
    {
        let from: usize = order[k];
        assert(places(order@)[k as int] == from);
        out.push(Emote { name: emotes[from].name.clone(), url: emotes[from].url.clone() });
        k += 1;
    }
    out
}

} // verus!
