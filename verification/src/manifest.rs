//! A page as the device software stores it: the buttons and the panel they
//! are for.

use crate::action::{Action, ActionView};
use crate::action_map::ActionMap;
use crate::grid::{DeviceModel, Position};
use vstd::prelude::*;

verus! {

/// One page of buttons for one panel.
pub struct ProfileManifest {
    pub actions: ActionMap,
    pub device_model: DeviceModel,
    pub device_uuid: String,
    pub name: String,
    pub version: String,
}

/// A `ProfileManifest` as plain values.
pub struct ManifestView {
    pub actions: Map<Position, ActionView>,
    pub device_model: DeviceModel,
    pub device_uuid: Seq<char>,
    pub name: Seq<char>,
    pub version: Seq<char>,
}

impl View for ProfileManifest {
    type V = ManifestView;

    open spec fn view(&self) -> ManifestView {
        ManifestView {
            actions: self.actions@,
            device_model: self.device_model,
            device_uuid: self.device_uuid@,
            name: self.name@,
            version: self.version@,
        }
    }
}

/// A row-major list of slots, each as plain values.
pub open spec fn slot_views(slots: Seq<Option<Action>>) -> Seq<Option<ActionView>> {
    slots.map_values(
        |slot: Option<Action>|
            match slot {
                Some(a) => Some(a@),
                None => None,
            },
    )
}

/// The cell of slot `i` on a grid `width` cells wide: the slots fill the
/// rows from the top, each row from the left. Positions are bytes, and so is
/// the index by which a slot is placed: slot 256 is placed as slot 0 is.
pub open spec fn slot_cell(i: int, width: int) -> Position {
    Position { x: ((i % 256) % width) as u8, y: ((i % 256) / width) as u8 }
}

/// `base` after each slot has been written to its cell, in order: a filled
/// slot puts its button there, an empty slot clears the cell.
pub open spec fn write_slots(
    base: Map<Position, ActionView>,
    slots: Seq<Option<ActionView>>,
    width: int,
) -> Map<Position, ActionView>
    decreases slots.len(),
{
    if slots.len() == 0 {
        base
    } else {
        let before = write_slots(base, slots.drop_last(), width);
        let cell = slot_cell(slots.len() - 1, width);
        match slots.last() {
            Some(action) => before.insert(cell, action),
            None => before.remove(cell),
        }
    }
}

/// The place of the cell `p` in a row-major list of slots of a grid `width`
/// cells wide.
pub open spec fn slot_index(p: Position, width: int) -> int {
    p.y * width + p.x
}

/// Whether the cell `p` is one of the first `n` slots.
pub open spec fn in_slots(p: Position, width: int, n: int) -> bool {
    p.x < width && slot_index(p, width) < n
}

/// What writing at most 256 slots amounts to: a cell among the slots holds
/// what its slot holds, and cells beyond the slots keep what they had.
pub open spec fn apply_slots(
    base: Map<Position, ActionView>,
    slots: Seq<Option<ActionView>>,
    width: int,
) -> Map<Position, ActionView> {
    Map::new(
        |p: Position|
            if in_slots(p, width, slots.len() as int) {
                slots[slot_index(p, width)] is Some
            } else {
                base.contains_key(p)
            },
        |p: Position|
            if in_slots(p, width, slots.len() as int) {
                slots[slot_index(p, width)]->0
            } else {
                base[p]
            },
    )
}

/// The cell of a slot among the first 256 is the only cell with that slot's
/// index.
proof fn lemma_slot_cell(i: int, width: int, p: Position)
    requires
        0 <= i < 256,
        3 <= width <= 5,
    ensures
        (p.x < width && slot_index(p, width) == i) <==> p == slot_cell(i, width),
{
    if width == 3 {
        assert((p.x < 3 && slot_index(p, 3) == i) <==> p == slot_cell(i, 3));
    } else if width == 4 {
        assert((p.x < 4 && slot_index(p, 4) == i) <==> p == slot_cell(i, 4));
    } else {
        assert((p.x < 5 && slot_index(p, 5) == i) <==> p == slot_cell(i, 5));
    }
}

/// Writing at most 256 slots gives every cell among the slots what its slot
/// holds, and leaves the other cells as they were.
pub proof fn lemma_write_slots(
    base: Map<Position, ActionView>,
    slots: Seq<Option<ActionView>>,
    width: int,
)
    requires
        slots.len() <= 256,
        3 <= width <= 5,
    ensures
        write_slots(base, slots, width) == apply_slots(base, slots, width),
    decreases slots.len(),
{
    if slots.len() == 0 {
        assert(apply_slots(base, slots, width) =~= base);
    } else {
        let shorter = slots.drop_last();
        let n = slots.len() - 1;
        lemma_write_slots(base, shorter, width);
        let before = apply_slots(base, shorter, width);
        let after = match slots.last() {
            Some(action) => before.insert(slot_cell(n, width), action),
            None => before.remove(slot_cell(n, width)),
        };
        assert forall|p: Position|
            #![trigger after.dom().contains(p)]
            #![trigger apply_slots(base, slots, width).dom().contains(p)]
            after.dom().contains(p) == apply_slots(base, slots, width).dom().contains(p) && (
            after.dom().contains(p) ==> after[p] == apply_slots(base, slots, width)[p]) by {
            lemma_slot_cell(n, width, p);
            if in_slots(p, width, n) {
                assert(shorter[slot_index(p, width)] == slots[slot_index(p, width)]);
            }
        }
        assert(after =~= apply_slots(base, slots, width));
    }
}

impl ProfileManifest {
    /// A page without buttons.
    pub fn new(device_model: DeviceModel, device_uuid: String, name: String) -> (r: Self)
        ensures
            r@ == (ManifestView {
                actions: Map::empty(),
                device_model,
                device_uuid: device_uuid@,
                name: name@,
                version: "1.0"@,
            }),
    {
        ProfileManifest {
            actions: ActionMap::new(),
            device_model,
            device_uuid,
            name,
            version: "1.0".to_owned(),
        }
    }

    /// Writes a row-major list of slots onto the page.
    pub fn set_actions(&mut self, actions: Vec<Option<Action>>)
        ensures
            final(self)@ == (ManifestView {
                actions: write_slots(
                    old(self)@.actions,
                    slot_views(actions@),
                    old(self).device_model.width(),
                ),
                ..old(self)@
            }),
    {
        let (width, _height) = self.device_model.size();
        let ghost base = self.actions@;
        let ghost slots = slot_views(actions@);
        let ghost w = self.device_model.width();
        let count: usize = actions.len();
        let mut index: usize = 0;
        assert(slots.take(0) =~= Seq::empty());
        for slot in it: actions.into_iter()
            invariant
                index == it.index(),
                it.seq() == actions@,
                count == actions@.len(),
                slots == slot_views(actions@),
                3 <= width <= 5,
                w == width,
                self.actions@ == write_slots(base, slots.take(index as int), w),
                self.device_model == old(self).device_model,
                self.device_uuid == old(self).device_uuid,
                self.name == old(self).name,
                self.version == old(self).version,
        {
            let place: u8 = (index % 256) as u8;
            let pos = Position::new(place % width, place / width);
            proof {
                let upto = slots.take(index + 1);
                assert(upto.drop_last() =~= slots.take(index as int));
                assert(upto.last() == slots[index as int]);
                assert(pos == slot_cell(index as int, w));
            }
            match slot {
                Some(action) => {
                    self.actions.insert(pos, action);
                },
                None => {
                    self.actions.remove(pos);
                },
            }
            index += 1;
        }
        assert(slots.take(slots.len() as int) =~= slots);
    }
}

} // verus!
