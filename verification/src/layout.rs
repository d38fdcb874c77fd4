//! The page layout: items are dealt onto pages of the panel's grid, row by
//! row, with the first column of every row kept free, and the pages are then
//! linked into a chain by a back and a forward button.

use crate::action::{
    bytes_view, spec_back_button, spec_content_button, spec_forward_button, Action, ActionView,
    EmoteImage,
};
use crate::grid::{DeviceModel, Position};
use crate::ident::{spec_uuid_v5, uuid_bits, uuid_v5};
use crate::manifest::{
    apply_slots, lemma_write_slots, slot_index, slot_views, ManifestView, ProfileManifest,
};
use bytes::Bytes;
use uuid::Uuid;
use vstd::prelude::*;

verus! {

/// Whether `width` and `height` are the size of a panel's grid.
spec fn is_grid(width: int, height: int) -> bool {
    ||| width == 5 && height == 3
    ||| width == 4 && height == 8
    ||| width == 3 && height == 2
}

/// The number of items that a page holds: every cell but those of the first
/// column.
pub open spec fn page_items(width: int, height: int) -> int {
    (width - 1) * height
}

/// The number of pages that `n` items take: `n / page_items`, rounded up.
pub open spec fn page_count(n: int, width: int, height: int) -> int {
    (n + page_items(width, height) - 1) / page_items(width, height)
}

/// The bits of the identifier of page `p`: the root identifier for the first
/// page, the derived one for every other.
pub open spec fn page_id(root: u128, name: Seq<char>, p: int) -> u128 {
    if p == 0 {
        root
    } else {
        spec_uuid_v5(name, p as nat)
    }
}

/// Which of a page's items stands in the cell `q`: the items fill the rows
/// from the top, each row from column 1 on.
pub open spec fn item_index(q: Position, width: int) -> int {
    q.y * (width - 1) + q.x - 1
}

/// The content of page `p`, before navigation buttons are put in: item
/// `p * page_items + j` stands in the cell whose item index is `j`.
pub open spec fn page_content(
    buttons: Seq<ActionView>,
    width: int,
    height: int,
    p: int,
) -> Map<Position, ActionView> {
    Map::new(
        |q: Position|
            1 <= q.x < width && q.y < height && p * page_items(width, height) + item_index(
                q,
                width,
            ) < buttons.len(),
        |q: Position| buttons[p * page_items(width, height) + item_index(q, width)],
    )
}

/// The cell of the back button.
pub open spec fn back_cell() -> Position {
    Position { x: 0, y: 0 }
}

/// The cell of the forward button.
pub open spec fn forward_cell(height: int) -> Position {
    Position { x: 0, y: (height - 1) as u8 }
}

/// The buttons of page `p` once the pages with the identifiers `ids` are
/// linked: every page but the first gets a back button, every page but the
/// last a forward button that opens the page after it.
pub open spec fn with_navigation(
    content: Map<Position, ActionView>,
    p: int,
    ids: Seq<u128>,
    height: int,
    back_icon: Seq<u8>,
    forward_icon: Seq<u8>,
) -> Map<Position, ActionView> {
    let with_back = if p > 0 {
        content.insert(back_cell(), spec_back_button(back_icon))
    } else {
        content
    };
    if p + 1 < ids.len() {
        with_back.insert(forward_cell(height), spec_forward_button(ids[p + 1], forward_icon))
    } else {
        with_back
    }
}

/// The identifiers of the pages, in order, by their bits.
pub open spec fn page_ids(pages: Seq<(Uuid, ProfileManifest)>) -> Seq<u128> {
    pages.map_values(|page: (Uuid, ProfileManifest)| uuid_bits(page.0))
}

/// The content buttons of the items, in order.
pub open spec fn content_buttons(
    images: Seq<EmoteImage>,
    prefix: Seq<char>,
    include_label: bool,
) -> Seq<ActionView> {
    images.map_values(
        |im: EmoteImage|
            spec_content_button(im.emote.name@, prefix, include_label, Some(bytes_view(im.bytes))),
    )
}

/// The number of cells of a grid.
spec fn grid_cells(width: int, height: int) -> int {
    width * height
}

/// The number of items in a slot list of length `len`.
spec fn placed(len: int, width: int) -> int {
    (len / width) * (width - 1) + if len % width == 0 {
        0
    } else {
        len % width - 1
    }
}

/// What slot `s` holds on a page whose first item is item `base`.
spec fn slot_content(buttons: Seq<ActionView>, base: int, s: int, width: int) -> Option<
    ActionView,
> {
    if s % width == 0 {
        None
    } else {
        Some(buttons[base + (s / width) * (width - 1) + s % width - 1])
    }
}

/// `slots` is the slot list of a page under construction whose first item is
/// item `base`.
#[verifier::opaque]
spec fn slots_hold(
    slots: Seq<Option<ActionView>>,
    buttons: Seq<ActionView>,
    base: int,
    width: int,
    height: int,
) -> bool {
    &&& slots.len() <= grid_cells(width, height)
    &&& slots.len() as int % width != 1
    &&& 0 <= base
    &&& base + placed(slots.len() as int, width) <= buttons.len()
    &&& forall|s: int|
        0 <= s < slots.len() ==> #[trigger] slots[s] == slot_content(buttons, base, s, width)
}

/// The length of a slot list of length `len` after one more item is placed.
spec fn grown(len: int, width: int) -> int {
    if len % width == 0 {
        len + 2
    } else {
        len + 1
    }
}

/// What placing an item on a page that is not full does to its slot list.
spec fn place_law(len: int, width: int, height: int) -> bool {
    let next = grown(len, width);
    (0 <= len < grid_cells(width, height) && len % width != 1) ==> {
        &&& next <= grid_cells(width, height)
        &&& next % width != 1
        &&& (next - 1) % width != 0
        &&& placed(next, width) == placed(len, width) + 1
        &&& ((next - 1) / width) * (width - 1) + (next - 1) % width - 1 == placed(len, width)
    }
}

/// Sizes of a grid and of the slot lists on it.
spec fn grid_law(len: int, width: int, height: int) -> bool {
    &&& placed(grid_cells(width, height), width) == page_items(width, height)
    &&& placed(0, width) == 0
    &&& 0 < page_items(width, height)
    &&& 0 < grid_cells(width, height) <= 32
    &&& 3 <= width <= 5
    &&& 2 <= height <= 8
    &&& page_count(0, width, height) == 0
    &&& (0 < len && len % width != 1) ==> 0 < placed(len, width) <= len
    &&& 0 <= len <= grid_cells(width, height) ==> placed(len, width) <= page_items(width, height)
    &&& 0 <= len < grid_cells(width, height) ==> grown(len, width) <= grid_cells(width, height)
}

/// Whether the cell `q` is filled by a slot list of length `len`, and with
/// which item of the page, where `rest` items are left for the page.
spec fn cell_law(q: Position, len: int, rest: int, width: int, height: int) -> bool {
    let s = slot_index(q, width);
    let filled = q.x < width && s < len && s % width != 0;
    let wanted = 1 <= q.x < width && q.y < height && item_index(q, width) < rest;
    (0 <= len <= grid_cells(width, height) && len % width != 1 && placed(len, width) <= rest && (len
        == grid_cells(width, height) || placed(len, width) == rest)) ==> {
        &&& filled == wanted
        &&& filled ==> (s / width) * (width - 1) + s % width - 1 == item_index(q, width)
    }
}

/// The number of pages, from the number of full pages and the number of
/// items on the page that follows them.
spec fn count_law(n: int, pages: int, on_page: int, width: int, height: int) -> bool {
    (0 <= pages && 0 < on_page <= page_items(width, height) && n == pages * page_items(
        width,
        height,
    ) + on_page) ==> page_count(n, width, height) == pages + 1
}

/// `place_law` on each grid.
proof fn lemma_place_sizes(len: int)
    ensures
        place_law(len, 5, 3),
        place_law(len, 4, 8),
        place_law(len, 3, 2),
{
    assert(grid_cells(5, 3) == 15 && grid_cells(4, 8) == 32 && grid_cells(3, 2) == 6);
}

/// `place_law` on the grid at hand.
proof fn lemma_place(len: int, width: int, height: int)
    requires
        is_grid(width, height),
    ensures
        place_law(len, width, height),
{
    lemma_place_sizes(len);
}

/// `grid_law` on each grid.
proof fn lemma_grid_sizes(len: int)
    ensures
        grid_law(len, 5, 3),
        grid_law(len, 4, 8),
        grid_law(len, 3, 2),
{
    assert(grid_cells(5, 3) == 15 && grid_cells(4, 8) == 32 && grid_cells(3, 2) == 6);
    assert(page_items(5, 3) == 12 && page_items(4, 8) == 24 && page_items(3, 2) == 4);
}

/// `grid_law` on the grid at hand.
proof fn lemma_grid(len: int, width: int, height: int)
    requires
        is_grid(width, height),
    ensures
        grid_law(len, width, height),
{
    lemma_grid_sizes(len);
}

/// `cell_law` on each grid.
proof fn lemma_cell_sizes(q: Position, len: int, rest: int)
    ensures
        cell_law(q, len, rest, 5, 3),
        cell_law(q, len, rest, 4, 8),
        cell_law(q, len, rest, 3, 2),
{
    assert(grid_cells(5, 3) == 15 && grid_cells(4, 8) == 32 && grid_cells(3, 2) == 6);
}

/// `cell_law` on the grid at hand.
proof fn lemma_cell(q: Position, len: int, rest: int, width: int, height: int)
    requires
        is_grid(width, height),
    ensures
        cell_law(q, len, rest, width, height),
{
    lemma_cell_sizes(q, len, rest);
}

/// `count_law` on each grid.
proof fn lemma_count_sizes(n: int, pages: int, on_page: int)
    ensures
        count_law(n, pages, on_page, 5, 3),
        count_law(n, pages, on_page, 4, 8),
        count_law(n, pages, on_page, 3, 2),
{
    assert(page_items(5, 3) == 12 && page_items(4, 8) == 24 && page_items(3, 2) == 4);
}

/// `count_law` on the grid at hand.
proof fn lemma_page_count(n: int, pages: int, on_page: int, width: int, height: int)
    requires
        is_grid(width, height),
    ensures
        count_law(n, pages, on_page, width, height),
{
    lemma_count_sizes(n, pages, on_page);
}

/// The empty slot list is the start of any page.
proof fn lemma_empty_holds(buttons: Seq<ActionView>, base: int, width: int, height: int)
    requires
        is_grid(width, height),
        0 <= base <= buttons.len(),
    ensures
        slots_hold(Seq::empty(), buttons, base, width, height),
        placed(0, width) == 0,
        0 < grid_cells(width, height) <= 32,
        page_count(0, width, height) == 0,
{
    reveal(slots_hold);
    lemma_grid(0, width, height);
}

/// Placing item `i` at the end of a page that is not full.
proof fn lemma_push(
    prev: Seq<Option<ActionView>>,
    now: Seq<Option<ActionView>>,
    buttons: Seq<ActionView>,
    base: int,
    i: int,
    width: int,
    height: int,
)
    requires
        is_grid(width, height),
        slots_hold(prev, buttons, base, width, height),
        prev.len() < grid_cells(width, height),
        base + placed(prev.len() as int, width) == i,
        i < buttons.len(),
        now == (if prev.len() as int % width == 0 {
            prev.push(None)
        } else {
            prev
        }).push(Some(buttons[i])),
    ensures
        slots_hold(now, buttons, base, width, height),
        base + placed(now.len() as int, width) == i + 1,
        now.len() > 0,
{
    reveal(slots_hold);
    let len = prev.len() as int;
    lemma_place(len, width, height);
    assert(now.len() == grown(len, width));
    assert forall|s: int| 0 <= s < now.len() implies #[trigger] now[s] == slot_content(
        buttons,
        base,
        s,
        width,
    ) by {
        if s < len {
            assert(now[s] == prev[s]);
        }
    }
}

/// The slots of a finished page, written onto an empty page, give the page's
/// content.
proof fn lemma_page_of_slots(
    slots: Seq<Option<ActionView>>,
    buttons: Seq<ActionView>,
    p: int,
    width: int,
    height: int,
)
    requires
        is_grid(width, height),
        0 <= p,
        slots_hold(slots, buttons, p * page_items(width, height), width, height),
        slots.len() == grid_cells(width, height) || p * page_items(width, height) + placed(
            slots.len() as int,
            width,
        ) == buttons.len(),
    ensures
        apply_slots(Map::empty(), slots, width) == page_content(buttons, width, height, p),
{
    reveal(slots_hold);
    let a = apply_slots(Map::empty(), slots, width);
    let b = page_content(buttons, width, height, p);
    let base = p * page_items(width, height);
    let rest = buttons.len() - base;
    assert forall|q: Position|
        #![trigger a.dom().contains(q)]
        #![trigger b.dom().contains(q)]
        a.dom().contains(q) == b.dom().contains(q) && (a.dom().contains(q) ==> a[q] == b[q]) by {
        lemma_cell(q, slots.len() as int, rest, width, height);
        let s = slot_index(q, width);
        if q.x < width && 0 <= s < slots.len() {
            assert(slots[s] == slot_content(buttons, base, s, width));
        }
    }
    assert(a =~= b);
}

/// A page that has no room left is page `p` in full.
proof fn lemma_full_page(
    slots: Seq<Option<ActionView>>,
    buttons: Seq<ActionView>,
    p: int,
    width: int,
    height: int,
)
    requires
        is_grid(width, height),
        0 <= p,
        slots_hold(slots, buttons, p * page_items(width, height), width, height),
        slots.len() >= grid_cells(width, height),
    ensures
        apply_slots(Map::empty(), slots, width) == page_content(buttons, width, height, p),
        placed(slots.len() as int, width) == page_items(width, height),
        (p + 1) * page_items(width, height) == p * page_items(width, height) + page_items(
            width,
            height,
        ),
        (p + 1) * page_items(width, height) <= buttons.len(),
        slots.len() <= 32,
{
    assert(slots.len() == grid_cells(width, height) && p * page_items(width, height) + placed(
        slots.len() as int,
        width,
    ) <= buttons.len()) by {
        reveal(slots_hold);
    }
    lemma_grid(slots.len() as int, width, height);
    lemma_page_of_slots(slots, buttons, p, width, height);
    assert((p + 1) * page_items(width, height) == p * page_items(width, height) + page_items(
        width,
        height,
    )) by (nonlinear_arith);
}

/// The page in hand when the items have run out is the last page.
proof fn lemma_last_page(
    slots: Seq<Option<ActionView>>,
    buttons: Seq<ActionView>,
    p: int,
    width: int,
    height: int,
)
    requires
        is_grid(width, height),
        0 <= p,
        slots_hold(slots, buttons, p * page_items(width, height), width, height),
        slots.len() > 0,
        p * page_items(width, height) + placed(slots.len() as int, width) == buttons.len(),
    ensures
        apply_slots(Map::empty(), slots, width) == page_content(buttons, width, height, p),
        page_count(buttons.len() as int, width, height) == p + 1,
        slots.len() <= 32,
{
    assert(slots.len() <= grid_cells(width, height) && slots.len() as int % width != 1) by {
        reveal(slots_hold);
    }
    lemma_grid(slots.len() as int, width, height);
    lemma_page_of_slots(slots, buttons, p, width, height);
    lemma_page_count(
        buttons.len() as int,
        p,
        placed(slots.len() as int, width),
        width,
        height,
    );
}

/// The pages in their order, each with its identifier.
pub struct ProfilesWithImages {
    pub manifests: Vec<(Uuid, ProfileManifest)>,
}

/// Pages as plain values, each with its identifier.
pub open spec fn page_views(pages: Seq<(Uuid, ProfileManifest)>) -> Seq<(u128, ManifestView)> {
    pages.map_values(|page: (Uuid, ProfileManifest)| (uuid_bits(page.0), page.1@))
}

/// Closes the page in `slots` and adds it to `pages`.
fn finish_page(
    pages: &mut Vec<(Uuid, ProfileManifest)>,
    slots: Vec<Option<Action>>,
    root: Uuid,
    model: DeviceModel,
    device_uuid: &str,
    name: &str,
)
    requires
        slots.len() <= 32,
    ensures
        page_views(final(pages)@) == page_views(old(pages)@).push(
            (
                page_id(uuid_bits(root), name@, old(pages)@.len() as int),
                ManifestView {
                    actions: apply_slots(Map::empty(), slot_views(slots@), model.width()),
                    device_model: model,
                    device_uuid: device_uuid@,
                    name: name@,
                    version: "1.0"@,
                },
            ),
        ),
{
    let id = if pages.len() == 0 {
        root
    } else {
        uuid_v5(name, pages.len())
    };
    let mut manifest = ProfileManifest::new(model, device_uuid.to_owned(), name.to_owned());
    proof {
        lemma_write_slots(Map::empty(), slot_views(slots@), model.width());
    }
    manifest.set_actions(slots);
    let ghost before = page_views(pages@);
    pages.push((id, manifest));
    assert(page_views(pages@) =~= before.push((uuid_bits(id), manifest@)));
}

/// The pages under construction: the pages that are finished, and the slots
/// of the page in hand, row by row.
pub struct Layout {
    root: Uuid,
    model: DeviceModel,
    device_uuid: String,
    name: String,
    finished: Vec<(Uuid, ProfileManifest)>,
    slots: Vec<Option<Action>>,
}

/// A `Layout` as plain values.
pub struct LayoutView {
    /// The bits of the identifier of the first page.
    pub root: u128,
    pub model: DeviceModel,
    pub device_uuid: Seq<char>,
    pub name: Seq<char>,
    /// The pages that are finished, each with the bits of its identifier.
    pub finished: Seq<(u128, ManifestView)>,
    /// The slots of the page in hand.
    pub slots: Seq<Option<ActionView>>,
}

impl View for Layout {
    type V = LayoutView;

    closed spec fn view(&self) -> LayoutView {
        LayoutView {
            root: uuid_bits(self.root),
            model: self.model,
            device_uuid: self.device_uuid@,
            name: self.name@,
            finished: page_views(self.finished@),
            slots: slot_views(self.slots@),
        }
    }
}

/// The page in hand, closed: its identifier, and its slots written onto an
/// empty page.
pub open spec fn closed_page(state: LayoutView) -> (u128, ManifestView) {
    (
        page_id(state.root, state.name, state.finished.len() as int),
        ManifestView {
            actions: apply_slots(Map::empty(), state.slots, state.model.width()),
            device_model: state.model,
            device_uuid: state.device_uuid,
            name: state.name,
            version: "1.0"@,
        },
    )
}

/// The state with room for one more button: if the page in hand is full, it
/// is closed and a new page begun.
pub open spec fn with_room(state: LayoutView) -> LayoutView {
    if state.slots.len() >= state.model.capacity() {
        LayoutView {
            finished: state.finished.push(closed_page(state)),
            slots: Seq::empty(),
            ..state
        }
    } else {
        state
    }
}

/// The state after one more button is placed: at the start of a row an
/// empty slot goes first, which keeps the first column free.
pub open spec fn spec_place(state: LayoutView, button: ActionView) -> LayoutView {
    let open = with_room(state);
    let lead = if open.slots.len() as int % open.model.width() == 0 {
        open.slots.push(None)
    } else {
        open.slots
    };
    LayoutView { slots: lead.push(Some(button)), ..open }
}

/// The pages when no more buttons come: the page in hand is closed unless it
/// is empty.
pub open spec fn spec_finish(state: LayoutView) -> Seq<(u128, ManifestView)> {
    if state.slots.len() > 0 {
        state.finished.push(closed_page(state))
    } else {
        state.finished
    }
}

impl Layout {
    #[verifier::type_invariant]
    spec fn within_grid(&self) -> bool {
        self.slots@.len() <= self.model.capacity()
    }

    /// No pages, and nothing on the page in hand.
    pub fn new(root: Uuid, model: DeviceModel, device_uuid: String, name: String) -> (r: Self)
        ensures
            r@ == (LayoutView {
                root: uuid_bits(root),
                model,
                device_uuid: device_uuid@,
                name: name@,
                finished: Seq::empty(),
                slots: Seq::empty(),
            }),
    {
        proof {
            lemma_grid(0, model.width(), model.height());
        }
        let r = Layout { root, model, device_uuid, name, finished: Vec::new(), slots: Vec::new() };
        assert(r@.finished =~= Seq::empty());
        assert(r@.slots =~= Seq::empty());
        r
    }

    /// The number of pages that are finished.
    pub fn finished_pages(&self) -> (r: usize)
        ensures
            r == self@.finished.len(),
    {
        self.finished.len()
    }

    /// The number of slots of the page in hand.
    pub fn slots_in_hand(&self) -> (r: usize)
        ensures
            r == self@.slots.len(),
    {
        self.slots.len()
    }

    /// Places one more button.
    pub fn place(self, button: Action) -> (r: Self)
        ensures
            r@ == spec_place(self@, button@),
    {
        proof {
            use_type_invariant(&self);
        }
        let ghost before = self@;
        let Layout { root, model, device_uuid, name, finished, slots } = self;
        let mut finished = finished;
        let mut slots = slots;
        let (width, height) = model.size();
        let w: usize = width as usize;
        proof {
            lemma_grid(slots@.len() as int, model.width(), model.height());
        }
        let max_len: usize = w * (height as usize);
        if slots.len() >= max_len {
            finish_page(&mut finished, slots, root, model, device_uuid.as_str(), name.as_str());
            slots = Vec::new();
            assert(slot_views(slots@) =~= Seq::empty());
        }
        let ghost open = with_room(before);
        assert(slot_views(slots@) == open.slots && page_views(finished@) == open.finished);
        proof {
            lemma_grid(slots@.len() as int, model.width(), model.height());
        }
        let ghost room = slot_views(slots@);
        if slots.len() % w == 0 {
            slots.push(None);
        }
        slots.push(Some(button));
        proof {
            assert(slot_views(slots@) =~= (if room.len() as int % model.width() == 0 {
                room.push(None)
            } else {
                room
            }).push(Some(button@)));
        }
        Layout { root, model, device_uuid, name, finished, slots }
    }

    /// The pages when no more buttons come.
    pub fn finish(self) -> (r: Vec<(Uuid, ProfileManifest)>)
        ensures
            page_views(r@) == spec_finish(self@),
    {
        proof {
            use_type_invariant(&self);
            lemma_grid(self.slots@.len() as int, self.model.width(), self.model.height());
        }
        let Layout { root, model, device_uuid, name, finished, slots } = self;
        let mut finished = finished;
        if slots.len() > 0 {
            finish_page(&mut finished, slots, root, model, device_uuid.as_str(), name.as_str());
        }
        finished
    }
}

/// Deals the items onto pages: the content of every page, without navigation
/// buttons.
pub fn lay_out(
    root_profile_uuid: Uuid,
    model: DeviceModel,
    device_uuid: &str,
    name: &str,
    images: &Vec<EmoteImage>,
    prefix: &str,
    include_label: bool,
) -> (pages: Vec<(Uuid, ProfileManifest)>)
    ensures
        pages@.len() == page_count(images@.len() as int, model.width(), model.height()),
        forall|p: int|
            0 <= p < pages@.len() ==> uuid_bits((#[trigger] pages@[p]).0) == page_id(
                uuid_bits(root_profile_uuid),
                name@,
                p,
            ),
        forall|p: int|
            0 <= p < pages@.len() ==> (#[trigger] pages@[p]).1@ == (ManifestView {
                actions: page_content(
                    content_buttons(images@, prefix@, include_label),
                    model.width(),
                    model.height(),
                    p,
                ),
                device_model: model,
                device_uuid: device_uuid@,
                name: name@,
                version: "1.0"@,
            }),
{
    let ghost wi = model.width();
    let ghost hi = model.height();
    let ghost buttons = content_buttons(images@, prefix@, include_label);
    let ghost per_page = page_items(wi, hi);
    let ghost base: int = 0;
    proof {
        lemma_empty_holds(buttons, 0, wi, hi);
    }
    let mut state = Layout::new(root_profile_uuid, model, device_uuid.to_owned(), name.to_owned());
    let mut i: usize = 0;
    while i < images.len()
        invariant
            i <= images.len(),
            is_grid(wi, hi),
            wi == model.width(),
            hi == model.height(),
            per_page == page_items(wi, hi),
            buttons == content_buttons(images@, prefix@, include_label),
            state@.root == uuid_bits(root_profile_uuid),
            state@.model == model,
            state@.device_uuid == device_uuid@,
            state@.name == name@,
            base == state@.finished.len() * per_page,
            slots_hold(state@.slots, buttons, base, wi, hi),
            base + placed(state@.slots.len() as int, wi) == i,
            i > 0 ==> state@.slots.len() > 0,
            i == 0 ==> state@.finished.len() == 0,
            forall|p: int|
                0 <= p < state@.finished.len() ==> #[trigger] state@.finished[p] == laid_page(
                    buttons,
                    state@,
                    p,
                ),
        decreases images.len() - i,
    {
        let ghost before = state@;
        let button = images[i].emote.to_action(
            prefix,
            include_label,
            Some(images[i].bytes.clone()),
        );
        state = state.place(button);
        proof {
            assert(button@ == buttons[i as int]);
            let open = with_room(before);
            if before.slots.len() >= model.capacity() {
                lemma_full_page(before.slots, buttons, before.finished.len() as int, wi, hi);
                base = base + per_page;
                lemma_empty_holds(buttons, base, wi, hi);
                assert(closed_page(before) == laid_page(
                    buttons,
                    state@,
                    before.finished.len() as int,
                ));
            } else {
                lemma_grid(before.slots.len() as int, wi, hi);
            }
            lemma_push(open.slots, state@.slots, buttons, base, i as int, wi, hi);
            let now = state@;
            assert forall|p: int| 0 <= p < now.finished.len() implies #[trigger] now.finished[p]
                == laid_page(buttons, now, p) by {
                if p < before.finished.len() {
                    assert(before.finished[p] == laid_page(buttons, before, p));
                }
            }
        }
        i += 1;
    }
    let ghost last = state@;
    let pages = state.finish();
    proof {
        assert(buttons.len() == images@.len());
        assert(page_views(pages@).len() == pages@.len());
        if last.slots.len() > 0 {
            lemma_last_page(last.slots, buttons, last.finished.len() as int, wi, hi);
            assert(closed_page(last) == laid_page(buttons, last, last.finished.len() as int));
            assert(page_views(pages@) == last.finished.push(closed_page(last)));
        } else {
            lemma_empty_holds(buttons, 0, wi, hi);
            assert(page_views(pages@) == last.finished);
        }
        assert forall|p: int| 0 <= p < pages@.len() implies page_views(pages@)[p] == laid_page(
            buttons,
            last,
            p,
        ) by {
            if p < last.finished.len() {
                assert(last.finished[p] == laid_page(buttons, last, p));
            }
        }
        assert forall|p: int| 0 <= p < pages@.len() implies uuid_bits((#[trigger] pages@[p]).0)
            == page_id(uuid_bits(root_profile_uuid), name@, p) && pages@[p].1@ == (ManifestView {
            actions: page_content(buttons, wi, hi, p),
            device_model: model,
            device_uuid: device_uuid@,
            name: name@,
            version: "1.0"@,
        }) by {
            assert(page_views(pages@)[p] == (uuid_bits(pages@[p].0), pages@[p].1@));
            assert(page_views(pages@)[p] == laid_page(buttons, last, p));
        }
    }
    pages
}

/// Page `p` of the items `buttons` as the state has it when it is finished.
spec fn laid_page(buttons: Seq<ActionView>, state: LayoutView, p: int) -> (u128, ManifestView) {
    (
        page_id(state.root, state.name, p),
        ManifestView {
            actions: page_content(buttons, state.model.width(), state.model.height(), p),
            device_model: state.model,
            device_uuid: state.device_uuid,
            name: state.name,
            version: "1.0"@,
        },
    )
}

/// Links the pages into a chain: a back button on every page but the first,
/// a forward button to the next page on every page but the last.
pub fn link_pages(
    pages: &mut Vec<(Uuid, ProfileManifest)>,
    model: DeviceModel,
    back_icon: &Bytes,
    forward_icon: &Bytes,
)
    ensures
        final(pages)@.len() == old(pages)@.len(),
        page_ids(final(pages)@) == page_ids(old(pages)@),
        forall|p: int|
            0 <= p < old(pages)@.len() ==> (#[trigger] final(pages)@[p]).1@ == (ManifestView {
                actions: with_navigation(
                    old(pages)@[p].1@.actions,
                    p,
                    page_ids(old(pages)@),
                    model.height(),
                    bytes_view(*back_icon),
                    bytes_view(*forward_icon),
                ),
                ..old(pages)@[p].1@
            }),
{
    let (_width, height) = model.size();
    let ghost ids = page_ids(pages@);
    let ghost back = spec_back_button(bytes_view(*back_icon));
    let n: usize = pages.len();
    let mut p: usize = 1;
    while p < n
        invariant
            1 <= p,
            n == pages@.len(),
            n == old(pages)@.len(),
            page_ids(pages@) == ids,
            back == spec_back_button(bytes_view(*back_icon)),
            forall|q: int|
                0 <= q < n ==> (#[trigger] pages@[q]).1@ == (ManifestView {
                    actions: if 0 < q < p {
                        old(pages)@[q].1@.actions.insert(back_cell(), back)
                    } else {
                        old(pages)@[q].1@.actions
                    },
                    ..old(pages)@[q].1@
                }),
        decreases n - p,
    {
        let ghost before = pages@;
        pages[p].1.actions.insert(Position::new(0, 0), Action::back(back_icon.clone()));
        proof {
            assert(page_ids(pages@) =~= page_ids(before));
            assert forall|q: int| 0 <= q < n implies (#[trigger] pages@[q]).1@ == (ManifestView {
                actions: if 0 < q < p + 1 {
                    old(pages)@[q].1@.actions.insert(back_cell(), back)
                } else {
                    old(pages)@[q].1@.actions
                },
                ..old(pages)@[q].1@
            }) by {
                if q != p {
                    assert(pages@[q] == before[q]);
                }
            }
        }
        p += 1;
    }
    let ghost linked = pages@;
    assert(linked.len() == n);
    let mut child: Option<Uuid> = None;
    let mut p: usize = n;
    while p > 0
        invariant
            p <= n,
            n == pages@.len(),
            n == old(pages)@.len(),
            height == model.height(),
            page_ids(pages@) == ids,
            ids == page_ids(old(pages)@),
            linked.len() == n,
            child is Some <==> p < n,
            child is Some ==> uuid_bits(child->0) == ids[p as int],
            forall|q: int|
                0 <= q < n ==> (#[trigger] pages@[q]).1@ == (ManifestView {
                    actions: if p <= q {
                        with_navigation(
                            old(pages)@[q].1@.actions,
                            q,
                            ids,
                            model.height(),
                            bytes_view(*back_icon),
                            bytes_view(*forward_icon),
                        )
                    } else {
                        linked[q].1@.actions
                    },
                    ..old(pages)@[q].1@
                }),
            forall|q: int|
                0 <= q < n ==> (#[trigger] linked[q]).1@.actions == if 0 < q {
                    old(pages)@[q].1@.actions.insert(
                        back_cell(),
                        spec_back_button(bytes_view(*back_icon)),
                    )
                } else {
                    old(pages)@[q].1@.actions
                },
        decreases p,
    {
        p -= 1;
        let ghost before = pages@;
        if let Some(next) = child {
            pages[p].1.actions.insert(
                Position::new(0, height - 1),
                Action::forward(next, forward_icon.clone()),
            );
        }
        proof {
            assert(page_ids(pages@) =~= page_ids(before));
            assert(ids[p as int] == uuid_bits(pages@[p as int].0));
            assert forall|q: int| 0 <= q < n implies (#[trigger] pages@[q]).1@ == (ManifestView {
                actions: if p <= q {
                    with_navigation(
                        old(pages)@[q].1@.actions,
                        q,
                        ids,
                        model.height(),
                        bytes_view(*back_icon),
                        bytes_view(*forward_icon),
                    )
                } else {
                    linked[q].1@.actions
                },
                ..old(pages)@[q].1@
            }) by {
                if q != p {
                    assert(pages@[q] == before[q]);
                } else {
                    assert(before[q].1@.actions == linked[q].1@.actions);
                }
            }
        }
        child = Some(pages[p].0);
    }
}

impl ProfilesWithImages {
    /// Lays the items out on pages of the panel's grid and links the pages
    /// into a chain that starts at the page `root_profile_uuid`.
    pub fn new(
        root_profile_uuid: Uuid,
        model: DeviceModel,
        device_uuid: String,
        name: String,
        images: Vec<EmoteImage>,
        prefix: &str,
        include_label: bool,
        back_icon: Bytes,
        forward_icon: Bytes,
    ) -> (r: Self)
        ensures
            r.manifests@.len() == page_count(images@.len() as int, model.width(), model.height()),
            forall|p: int|
                0 <= p < r.manifests@.len() ==> uuid_bits((#[trigger] r.manifests@[p]).0)
                    == page_id(uuid_bits(root_profile_uuid), name@, p),
            forall|p: int|
                0 <= p < r.manifests@.len() ==> (#[trigger] r.manifests@[p]).1@ == (ManifestView {
                    actions: page_actions(
                        images@,
                        prefix@,
                        include_label,
                        model,
                        page_ids(r.manifests@),
                        bytes_view(back_icon),
                        bytes_view(forward_icon),
                        p,
                    ),
                    device_model: model,
                    device_uuid: device_uuid@,
                    name: name@,
                    version: "1.0"@,
                }),
    {
        let mut manifests = lay_out(
            root_profile_uuid,
            model,
            device_uuid.as_str(),
            name.as_str(),
            &images,
            prefix,
            include_label,
        );
        let ghost content = manifests@;
        link_pages(&mut manifests, model, &back_icon, &forward_icon);
        proof {
            assert forall|p: int| 0 <= p < manifests@.len() implies uuid_bits(
                (#[trigger] manifests@[p]).0,
            ) == page_id(uuid_bits(root_profile_uuid), name@, p) by {
                assert(page_ids(manifests@)[p] == page_ids(content)[p]);
                assert(uuid_bits(content[p].0) == page_id(uuid_bits(root_profile_uuid), name@, p));
            }
        }
        ProfilesWithImages { manifests }
    }
}

/// The buttons of page `p` of the chain with the identifiers `ids`, for the
/// items `images`.
pub open spec fn page_actions(
    images: Seq<EmoteImage>,
    prefix: Seq<char>,
    include_label: bool,
    model: DeviceModel,
    ids: Seq<u128>,
    back_icon: Seq<u8>,
    forward_icon: Seq<u8>,
    p: int,
) -> Map<Position, ActionView> {
    with_navigation(
        page_content(
            content_buttons(images, prefix, include_label),
            model.width(),
            model.height(),
            p,
        ),
        p,
        ids,
        model.height(),
        back_icon,
        forward_icon,
    )
}

/// The chain is complete. The first page holds no button that goes back;
/// every other page holds the back button in the top left cell. The last
/// page holds no button that opens a page; every other page holds, in the
/// bottom left cell, the button that opens the page after it.
pub proof fn lemma_navigation_complete(
    images: Seq<EmoteImage>,
    prefix: Seq<char>,
    include_label: bool,
    model: DeviceModel,
    ids: Seq<u128>,
    back_icon: Seq<u8>,
    forward_icon: Seq<u8>,
    p: int,
)
    requires
        0 <= p < ids.len(),
    ensures
        ({
            let page = page_actions(
                images,
                prefix,
                include_label,
                model,
                ids,
                back_icon,
                forward_icon,
                p,
            );
            &&& p == 0 ==> forall|q: Position|
                page.contains_key(q) ==> !(#[trigger] page[q].settings is BackToParent)
            &&& p > 0 ==> page.contains_key(back_cell()) && page[back_cell()] == spec_back_button(
                back_icon,
            )
            &&& p + 1 < ids.len() ==> page.contains_key(forward_cell(model.height()))
                && page[forward_cell(model.height())] == spec_forward_button(
                ids[p + 1],
                forward_icon,
            )
            &&& p + 1 == ids.len() ==> forall|q: Position|
                page.contains_key(q) ==> !(#[trigger] page[q].settings is OpenChild)
        }),
{
    let buttons = content_buttons(images, prefix, include_label);
    let content = page_content(buttons, model.width(), model.height(), p);
    assert(forward_cell(model.height()) != back_cell());
    assert forall|q: Position| content.contains_key(q) implies (
    #[trigger] content[q]).settings is Text by {
        let i = p * page_items(model.width(), model.height()) + item_index(q, model.width());
        assert(0 <= i < buttons.len()) by {
            lemma_item_index(q, p, model);
        }
        assert(content[q] == buttons[i]);
    }
}

/// Every button of a page stands on the panel's grid, and the first column
/// holds nothing but the navigation buttons.
pub proof fn lemma_page_within_grid(
    images: Seq<EmoteImage>,
    prefix: Seq<char>,
    include_label: bool,
    model: DeviceModel,
    ids: Seq<u128>,
    back_icon: Seq<u8>,
    forward_icon: Seq<u8>,
    p: int,
    q: Position,
)
    requires
        0 <= p < ids.len(),
        page_actions(images, prefix, include_label, model, ids, back_icon, forward_icon, p)
            .contains_key(q),
    ensures
        q.x < model.width(),
        q.y < model.height(),
        q.x == 0 ==> (q == back_cell() && p > 0) || (q == forward_cell(model.height()) && p + 1
            < ids.len()),
{
}

/// The page on which item `i` stands.
pub open spec fn page_of_item(i: int, width: int, height: int) -> int {
    i / page_items(width, height)
}

/// The cell in which item `i` stands on its page.
pub open spec fn cell_of_item(i: int, width: int, height: int) -> Position {
    let j = i % page_items(width, height);
    Position { x: (1 + j % (width - 1)) as u8, y: (j / (width - 1)) as u8 }
}

/// Where item `i` of `n` stands, and that no other item stands there.
spec fn item_law(n: int, i: int, k: int, width: int, height: int) -> bool {
    let p = page_of_item(i, width, height);
    let q = cell_of_item(i, width, height);
    0 <= i < n ==> {
        &&& 0 <= p < page_count(n, width, height)
        &&& 1 <= q.x < width
        &&& q.y < height
        &&& p * page_items(width, height) + item_index(q, width) == i
        &&& (0 <= k < n && page_of_item(k, width, height) == p && cell_of_item(k, width, height)
            == q) ==> k == i
    }
}

/// `item_law` on each grid.
proof fn lemma_item_sizes(n: int, i: int, k: int)
    ensures
        item_law(n, i, k, 5, 3),
        item_law(n, i, k, 4, 8),
        item_law(n, i, k, 3, 2),
{
    assert(page_items(5, 3) == 12 && page_items(4, 8) == 24 && page_items(3, 2) == 4);
}

/// Every item stands on one page, in one cell, and has that cell to itself:
/// item `i` is the content of the cell `cell_of_item` of the page
/// `page_of_item`.
pub proof fn lemma_every_item_placed(buttons: Seq<ActionView>, model: DeviceModel, i: int)
    requires
        0 <= i < buttons.len(),
    ensures
        0 <= page_of_item(i, model.width(), model.height()) < page_count(
            buttons.len() as int,
            model.width(),
            model.height(),
        ),
        page_content(
            buttons,
            model.width(),
            model.height(),
            page_of_item(i, model.width(), model.height()),
        ).contains_key(cell_of_item(i, model.width(), model.height())),
        page_content(
            buttons,
            model.width(),
            model.height(),
            page_of_item(i, model.width(), model.height()),
        )[cell_of_item(i, model.width(), model.height())] == buttons[i],
        forall|k: int|
            0 <= k < buttons.len() && page_of_item(k, model.width(), model.height())
                == page_of_item(i, model.width(), model.height()) && #[trigger] cell_of_item(
                k,
                model.width(),
                model.height(),
            ) == cell_of_item(i, model.width(), model.height()) ==> k == i,
{
    let n = buttons.len() as int;
    lemma_item_sizes(n, i, i);
    assert(item_law(n, i, i, model.width(), model.height()));
    assert forall|k: int|
        0 <= k < buttons.len() && page_of_item(k, model.width(), model.height()) == page_of_item(
            i,
            model.width(),
            model.height(),
        ) && #[trigger] cell_of_item(k, model.width(), model.height()) == cell_of_item(
            i,
            model.width(),
            model.height(),
        ) implies k == i by {
        lemma_item_sizes(n, i, k);
        assert(item_law(n, i, k, model.width(), model.height()));
    }
}

/// The item index of a cell of page `p` is not negative.
proof fn lemma_item_index(q: Position, p: int, model: DeviceModel)
    requires
        0 <= p,
        1 <= q.x,
    ensures
        0 <= p * page_items(model.width(), model.height()) + item_index(q, model.width()),
{
    match model {
        DeviceModel::Standard => {
            assert(page_items(5, 3) == 12);
            assert(0 <= p * page_items(5, 3) + item_index(q, 5));
        },
        DeviceModel::XL => {
            assert(page_items(4, 8) == 24);
            assert(0 <= p * page_items(4, 8) + item_index(q, 4));
        },
        DeviceModel::Mini => {
            assert(page_items(3, 2) == 4);
            assert(0 <= p * page_items(3, 2) + item_index(q, 3));
        },
    }
}

} // verus!
