//! The buttons of a page, by position: at most one button per position.

use crate::action::{Action, ActionView};
use crate::grid::Position;
use vstd::prelude::*;

verus! {

/// Whether some entry of `s` has the key `p`.
pub open spec fn has_key(s: Seq<(Position, Action)>, p: Position) -> bool {
    exists|i: int| 0 <= i < s.len() && (#[trigger] s[i]).0 == p
}

/// An index at which `s` has the key `p`, if it has one.
pub open spec fn index_of(s: Seq<(Position, Action)>, p: Position) -> int {
    choose|i: int| 0 <= i < s.len() && (#[trigger] s[i]).0 == p
}

/// No key occurs twice in `s`.
pub open spec fn distinct_keys(s: Seq<(Position, Action)>) -> bool {
    forall|i: int, j: int|
        0 <= i < j < s.len() ==> (#[trigger] s[i]).0 != (#[trigger] s[j]).0
}

/// The map that the entries `s` stand for.
pub open spec fn entries_map(s: Seq<(Position, Action)>) -> Map<Position, ActionView> {
    Map::new(|p: Position| has_key(s, p), |p: Position| s[index_of(s, p)].1@)
}

/// In a sequence without repeated keys, the entry at `i` is what the map
/// holds under that entry's key.
pub proof fn lemma_entry_in_map(s: Seq<(Position, Action)>, i: int)
    requires
        distinct_keys(s),
        0 <= i < s.len(),
    ensures
        has_key(s, s[i].0),
        index_of(s, s[i].0) == i,
        entries_map(s).contains_key(s[i].0),
        entries_map(s)[s[i].0] == s[i].1@,
{
    let p = s[i].0;
    let j = index_of(s, p);
    assert(0 <= j < s.len() && s[j].0 == p);
    if j < i {
        assert(s[j].0 != s[i].0);
    } else if i < j {
        assert(s[i].0 != s[j].0);
    }
}

/// The entries one short of `s`, and the map they stand for.
proof fn lemma_entries_step(s: Seq<(Position, Action)>)
    requires
        distinct_keys(s),
        s.len() > 0,
    ensures
        distinct_keys(s.drop_last()),
        !has_key(s.drop_last(), s.last().0),
        entries_map(s) == entries_map(s.drop_last()).insert(s.last().0, s.last().1@),
{
    let t = s.drop_last();
    let k = s.last().0;
    assert forall|i: int, j: int| 0 <= i < j < t.len() implies (#[trigger] t[i]).0 != (
    #[trigger] t[j]).0 by {
        assert(s[i].0 != s[j].0);
    }
    if has_key(t, k) {
        let i = index_of(t, k);
        assert(s[i].0 != s[s.len() - 1].0);
    }
    assert forall|q: Position| has_key(s, q) == (q == k || has_key(t, q)) by {
        if has_key(s, q) {
            let i = index_of(s, q);
            if i < t.len() {
                assert(t[i].0 == q);
            }
        }
        if has_key(t, q) {
            let i = index_of(t, q);
            assert(s[i].0 == q);
        }
        if q == k {
            assert(s[s.len() - 1].0 == q);
        }
    }
    assert forall|q: Position| has_key(s, q) implies entries_map(s)[q] == entries_map(t).insert(
        k,
        s.last().1@,
    )[q] by {
        let i = index_of(s, q);
        lemma_entry_in_map(s, i);
        if q != k {
            lemma_entry_in_map(t, i);
        }
    }
    assert(entries_map(s) =~= entries_map(t).insert(k, s.last().1@));
}

/// Entries without repeated keys stand for a map with as many keys.
proof fn lemma_entries_count(s: Seq<(Position, Action)>)
    requires
        distinct_keys(s),
    ensures
        entries_map(s).dom().finite(),
        entries_map(s).dom().len() == s.len(),
    decreases s.len(),
{
    if s.len() == 0 {
        assert(entries_map(s).dom() =~= Set::empty());
    } else {
        lemma_entries_step(s);
        lemma_entries_count(s.drop_last());
    }
}

/// A finite map from positions to buttons.
pub struct ActionMap {
    entries: Vec<(Position, Action)>,
}

impl View for ActionMap {
    type V = Map<Position, ActionView>;

    closed spec fn view(&self) -> Map<Position, ActionView> {
        entries_map(self.entries@)
    }
}

impl ActionMap {
    #[verifier::type_invariant]
    spec fn well_formed(&self) -> bool {
        distinct_keys(self.entries@)
    }

    /// The empty map.
    pub fn new() -> (r: Self)
        ensures
            r@ == Map::<Position, ActionView>::empty(),
    {
        let r = ActionMap { entries: Vec::new() };
        assert(r@ =~= Map::<Position, ActionView>::empty());
        r
    }

    /// The index of the entry with key `pos`, if there is one.
    fn find(&self, pos: Position) -> (r: Option<usize>)
        ensures
            match r {
                Some(i) => i < self.entries@.len() && self.entries@[i as int].0 == pos,
                None => !has_key(self.entries@, pos),
            },
    {
        let mut i: usize = 0;
        while i < self.entries.len()
            invariant
                i <= self.entries.len(),
                forall|j: int| 0 <= j < i ==> (#[trigger] self.entries@[j]).0 != pos,
            decreases self.entries.len() - i,
        {
            if self.entries[i].0 == pos {
                return Some(i);
            }
            i += 1;
        }
        None
    }

    /// The number of buttons.
    pub fn len(&self) -> (r: usize)
        ensures
            self@.dom().finite(),
            r == self@.len(),
    {
        proof {
            use_type_invariant(self);
            lemma_entries_count(self.entries@);
        }
        self.entries.len()
    }

    /// The positions at which a button stands, each once.
    pub fn positions(&self) -> (r: Vec<Position>)
        ensures
            r@.no_duplicates(),
            forall|p: Position| r@.contains(p) <==> self@.contains_key(p),
    {
        proof {
            use_type_invariant(self);
        }
        let mut out: Vec<Position> = Vec::new();
        let mut i: usize = 0;
        while i < self.entries.len()
            invariant
                i <= self.entries.len(),
                out@.len() == i,
                distinct_keys(self.entries@),
                forall|j: int| 0 <= j < i ==> #[trigger] out@[j] == self.entries@[j].0,
            decreases self.entries.len() - i,
        {
            out.push(self.entries[i].0);
            i += 1;
        }
        proof {
            assert forall|a: int, b: int| 0 <= a < out@.len() && 0 <= b < out@.len() && a
                != b implies out@[a] != out@[b] by {
                if a < b {
                    assert(self.entries@[a].0 != self.entries@[b].0);
                } else {
                    assert(self.entries@[b].0 != self.entries@[a].0);
                }
            }
            assert forall|p: Position| out@.contains(p) <==> self@.contains_key(p) by {
                if out@.contains(p) {
                    let j = choose|j: int| 0 <= j < out@.len() && out@[j] == p;
                    assert(self.entries@[j].0 == p);
                }
                if self@.contains_key(p) {
                    let j = index_of(self.entries@, p);
                    assert(out@[j] == p);
                }
            }
        }
        out
    }

    /// Whether a button stands at `pos`.
    pub fn contains_key(&self, pos: Position) -> (r: bool)
        ensures
            r == self@.contains_key(pos),
    {
        self.find(pos).is_some()
    }

    /// The button at `pos`, if there is one.
    pub fn get(&self, pos: Position) -> (r: Option<&Action>)
        ensures
            match r {
                Some(a) => self@.contains_key(pos) && a@ == self@[pos],
                None => !self@.contains_key(pos),
            },
    {
        proof {
            use_type_invariant(self);
        }
        match self.find(pos) {
            Some(i) => {
                proof {
                    lemma_entry_in_map(self.entries@, i as int);
                }
                Some(&self.entries[i].1)
            },
            None => None,
        }
    }

    /// Puts `action` at `pos`, in place of the button that stood there, if any.
    pub fn insert(&mut self, pos: Position, action: Action)
        ensures
            final(self)@ == old(self)@.insert(pos, action@),
    {
        proof {
            use_type_invariant(&*self);
        }
        let ghost before = self.entries@;
        let ghost av = action@;
        let found = self.find(pos);
        let mut entries: Vec<(Position, Action)> = Vec::new();
        core::mem::swap(&mut self.entries, &mut entries);
        match found {
            Some(i) => {
                entries.set(i, (pos, action));
                proof {
                    let after = entries@;
                    assert(distinct_keys(after)) by {
                        assert forall|a: int, b: int| 0 <= a < b < after.len() implies (
                        #[trigger] after[a]).0 != (#[trigger] after[b]).0 by {
                            assert(before[a].0 != before[b].0);
                        }
                    }
                    assert forall|q: Position| has_key(after, q) == (q == pos || has_key(
                        before,
                        q,
                    )) by {
                        if has_key(after, q) {
                            let k = index_of(after, q);
                            assert(before[k].0 == q);
                        }
                        if has_key(before, q) {
                            let k = index_of(before, q);
                            assert(after[k].0 == q);
                        }
                        if q == pos {
                            assert(after[i as int].0 == q);
                        }
                    }
                    assert forall|q: Position| has_key(after, q) implies entries_map(after)[q]
                        == entries_map(before).insert(pos, av)[q] by {
                        let k = index_of(after, q);
                        lemma_entry_in_map(after, k);
                        if q != pos {
                            lemma_entry_in_map(before, k);
                        }
                    }
                    assert(entries_map(after) =~= entries_map(before).insert(pos, av));
                }
            },
            None => {
                entries.push((pos, action));
                proof {
                    let after = entries@;
                    assert(distinct_keys(after)) by {
                        assert forall|a: int, b: int| 0 <= a < b < after.len() implies (
                        #[trigger] after[a]).0 != (#[trigger] after[b]).0 by {
                            if b < before.len() {
                                assert(before[a].0 != before[b].0);
                            } else {
                                assert(before[a].0 == after[a].0);
                            }
                        }
                    }
                    assert forall|q: Position| has_key(after, q) == (q == pos || has_key(
                        before,
                        q,
                    )) by {
                        if has_key(after, q) {
                            let k = index_of(after, q);
                            if k < before.len() {
                                assert(before[k].0 == q);
                            }
                        }
                        if has_key(before, q) {
                            let k = index_of(before, q);
                            assert(after[k].0 == q);
                        }
                        if q == pos {
                            assert(after[before.len() as int].0 == q);
                        }
                    }
                    assert forall|q: Position| has_key(after, q) implies entries_map(after)[q]
                        == entries_map(before).insert(pos, av)[q] by {
                        let k = index_of(after, q);
                        lemma_entry_in_map(after, k);
                        if q != pos {
                            lemma_entry_in_map(before, k);
                        }
                    }
                    assert(entries_map(after) =~= entries_map(before).insert(pos, av));
                }
            },
        }
        self.entries = entries;
    }

    /// Takes away the button at `pos`, if there is one.
    pub fn remove(&mut self, pos: Position)
        ensures
            final(self)@ == old(self)@.remove(pos),
    {
        proof {
            use_type_invariant(&*self);
        }
        let ghost before = self.entries@;
        let found = self.find(pos);
        let mut entries: Vec<(Position, Action)> = Vec::new();
        core::mem::swap(&mut self.entries, &mut entries);
        match found {
            Some(i) => {
                let _ = entries.remove(i);
                proof {
                    let after = entries@;
                    assert(distinct_keys(after)) by {
                        assert forall|a: int, b: int| 0 <= a < b < after.len() implies (
                        #[trigger] after[a]).0 != (#[trigger] after[b]).0 by {
                            let a0 = if a < i { a } else { a + 1 };
                            let b0 = if b < i { b } else { b + 1 };
                            assert(before[a0].0 != before[b0].0);
                        }
                    }
                    assert forall|q: Position| has_key(after, q) == (q != pos && has_key(
                        before,
                        q,
                    )) by {
                        if has_key(after, q) {
                            let k = index_of(after, q);
                            let k0 = if k < i { k } else { k + 1 };
                            assert(before[k0].0 == q);
                            if k0 < i {
                                assert(before[k0].0 != before[i as int].0);
                            } else {
                                assert(before[i as int].0 != before[k0].0);
                            }
                        }
                        if q != pos && has_key(before, q) {
                            let k = index_of(before, q);
                            let k1 = if k < i { k } else { k - 1 };
                            assert(after[k1].0 == q);
                        }
                    }
                    assert forall|q: Position| has_key(after, q) implies entries_map(after)[q]
                        == entries_map(before)[q] by {
                        let k = index_of(after, q);
                        let k0 = if k < i { k } else { k + 1 };
                        lemma_entry_in_map(after, k);
                        lemma_entry_in_map(before, k0);
                    }
                    assert(entries_map(after) =~= entries_map(before).remove(pos));
                }
            },
            None => {
                assert(entries_map(before) =~= entries_map(before).remove(pos));
            },
        }
        self.entries = entries;
    }
}

} // verus!
