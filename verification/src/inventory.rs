use vstd::prelude::*;

use crate::item::Item;
use crate::ui::{area_contains, UiArea};

verus! {

/// Width of the bag grid, in cells.
pub const BAG_COLUMNS: i32 = 32;

/// Height of the bag grid, in cells.
pub const BAG_ROWS: i32 = 8;

/// Where an item is equipped or stowed.
#[derive(PartialEq, Eq, Structural, Debug, Hash, Clone, Copy)]
pub enum Slot {
    Bag,
    Stash,
    Nose,
    Body,
    LWing,
    RWing,
    Engine,
}

/// Placement details of one owned item: which slot it sits in and, for bag
/// items, its cell position in the bag grid.
#[derive(PartialEq, Eq, Structural, Debug, Clone, Copy)]
pub struct Entry {
    pub item_id: usize,
    pub slot: Slot,
    pub location_x: i32,
    pub location_y: i32,
}

/// First item of `bag` with the given id, if any.
pub open spec fn item_with_id(bag: Seq<Item>, id: int) -> Option<Item>
    decreases bag.len(),
{
    if bag.len() == 0 {
        Option::None
    } else if bag.first().id == id {
        Option::Some(bag.first())
    } else {
        item_with_id(bag.drop_first(), id)
    }
}

/// The grid footprint an entry occupies. The area test includes both
/// borders, so an entry covers one more cell per axis than its item's
/// nominal size.
pub open spec fn entry_area(e: Entry, it: Item) -> UiArea {
    UiArea { x: e.location_x, y: e.location_y, w: it.inventory_w, h: it.inventory_h }
}

/// Cell `(x, y)` is covered by some entry whose item is in the bag list.
pub open spec fn cell_blocked(bag: Seq<Item>, entries: Seq<Entry>, x: int, y: int) -> bool {
    exists|j: int|
        0 <= j < entries.len() && match item_with_id(bag, (#[trigger] entries[j]).item_id as int) {
            Option::Some(it) => area_contains(entry_area(entries[j], it), x, y),
            Option::None => false,
        }
}

/// An item of size `w` by `h` placed at `(gx, gy)` would overlap some entry.
pub open spec fn spot_blocked(
    bag: Seq<Item>,
    entries: Seq<Entry>,
    gx: int,
    gy: int,
    w: int,
    h: int,
) -> bool {
    exists|dx: int, dy: int|
        0 <= dx < w && 0 <= dy < h && #[trigger] cell_blocked(bag, entries, gx + dx, gy + dy)
}

/// All bag spots strictly before `(gx, gy)` in scan order (rows outer,
/// columns inner) are blocked for an item of size `w` by `h`.
pub open spec fn earlier_spots_blocked(
    bag: Seq<Item>,
    entries: Seq<Entry>,
    gx: int,
    gy: int,
    w: int,
    h: int,
) -> bool {
    forall|x: int, y: int|
        0 <= x < BAG_COLUMNS && 0 <= y < BAG_ROWS && (y < gy || (y == gy && x < gx))
            ==> spot_blocked(bag, entries, x, y, w, h)
}

/// The items on a map or owned by the player, with placement entries for
/// each.
#[derive(Debug)]
pub struct Inventory {
    pub bag: Vec<Item>,
    pub entries: Vec<Entry>,
}

pub open spec fn item_dims_ok(it: Item) -> bool {
    0 <= it.inventory_w <= 0x1000 && 0 <= it.inventory_h <= 0x1000
}

/// A found item is one of the bag's elements, so the bag's well-formedness
/// bounds apply to it.
pub proof fn lemma_item_with_id_in_bag(bag: Seq<Item>, id: int)
    ensures
        match item_with_id(bag, id) {
            Option::Some(it) => exists|i: int| 0 <= i < bag.len() && bag[i] == it,
            Option::None => true,
        },
    decreases bag.len(),
{
    if bag.len() > 0 && bag.first().id != id {
        lemma_item_with_id_in_bag(bag.drop_first(), id);
        match item_with_id(bag.drop_first(), id) {
            Option::Some(it) => {
                let i = choose|i: int| 0 <= i < bag.drop_first().len() && bag.drop_first()[i] == it;
                assert(bag[i + 1] == it);
            },
            Option::None => {},
        }
    }
}

impl Inventory {
    pub open spec fn wf(&self) -> bool {
        &&& forall|i: int| 0 <= i < self.bag@.len() ==> item_dims_ok(#[trigger] self.bag@[i])
        &&& forall|i: int|
            0 <= i < self.entries@.len() ==> -0x10_0000 <= (#[trigger] self.entries@[i]).location_x
                <= 0x10_0000 && -0x10_0000 <= self.entries@[i].location_y <= 0x10_0000
    }

    pub fn new() -> (r: Inventory)
        ensures
            r.wf(),
            r.bag@.len() == 0,
            r.entries@.len() == 0,
    {
        Inventory { bag: Vec::new(), entries: Vec::new() }
    }

    /// First bag item with the given id.
    pub fn find_item(&self, id: usize) -> (r: Option<&Item>)
        ensures
            match r {
                Option::Some(it) => item_with_id(self.bag@, id as int) == Option::Some(*it),
                Option::None => item_with_id(self.bag@, id as int) is None,
            },
    {
        proof {
            assert(self.bag@.skip(0) =~= self.bag@);
        }
        let mut i: usize = 0;
        while i < self.bag.len()
            invariant
                i <= self.bag@.len(),
                item_with_id(self.bag@, id as int) == item_with_id(
                    self.bag@.skip(i as int),
                    id as int,
                ),
            decreases self.bag@.len() - i,
        {
            proof {
                assert(self.bag@.skip(i as int).first() == self.bag@[i as int]);
                assert(self.bag@.skip(i as int).drop_first() =~= self.bag@.skip(i as int + 1));
            }
            if self.bag[i].id == id {
                return Some(&self.bag[i]);
            }
            i = i + 1;
        }
        proof {
            assert(self.bag@.skip(self.bag@.len() as int).len() == 0);
        }
        None
    }

    /// True when placing an item of size `w` by `h` at `(gx, gy)` would
    /// overlap some already-placed entry.
    fn is_spot_blocked(&self, gx: i32, gy: i32, w: i32, h: i32) -> (r: bool)
        requires
            self.wf(),
            0 <= gx <= 0x1000,
            0 <= gy <= 0x1000,
            0 <= w <= 0x1000,
            0 <= h <= 0x1000,
        ensures
            r == spot_blocked(self.bag@, self.entries@, gx as int, gy as int, w as int, h as int),
    {
        let mut dx: i32 = 0;
        while dx < w
            invariant
                0 <= dx <= w,
                self.wf(),
                0 <= gx <= 0x1000,
                0 <= gy <= 0x1000,
                0 <= w <= 0x1000,
                0 <= h <= 0x1000,
                forall|x: int, y: int|
                    0 <= x < dx && 0 <= y < h ==> !(#[trigger] cell_blocked(
                        self.bag@,
                        self.entries@,
                        gx + x,
                        gy + y,
                    )),
            decreases w - dx,
        {
            let mut dy: i32 = 0;
            while dy < h
                invariant
                    0 <= dx < w,
                    0 <= dy <= h,
                    self.wf(),
                    0 <= gx <= 0x1000,
                    0 <= gy <= 0x1000,
                    0 <= w <= 0x1000,
                    0 <= h <= 0x1000,
                    forall|y: int|
                        0 <= y < dy ==> !(#[trigger] cell_blocked(
                            self.bag@,
                            self.entries@,
                            gx + dx,
                            gy + y,
                        )),
                decreases h - dy,
            {
                if self.is_cell_blocked(gx + dx, gy + dy) {
                    return true;
                }
                dy = dy + 1;
            }
            dx = dx + 1;
        }
        false
    }

    /// True when some entry covers the cell `(x, y)`.
    fn is_cell_blocked(&self, x: i32, y: i32) -> (r: bool)
        requires
            self.wf(),
            -0x4000 <= x <= 0x4000,
            -0x4000 <= y <= 0x4000,
        ensures
            r == cell_blocked(self.bag@, self.entries@, x as int, y as int),
    {
        let mut j: usize = 0;
        while j < self.entries.len()
            invariant
                j <= self.entries@.len(),
                self.wf(),
                -0x4000 <= x <= 0x4000,
                -0x4000 <= y <= 0x4000,
                forall|k: int|
                    0 <= k < j ==> match item_with_id(
                        self.bag@,
                        (#[trigger] self.entries@[k]).item_id as int,
                    ) {
                        Option::Some(it) => !area_contains(
                            entry_area(self.entries@[k], it),
                            x as int,
                            y as int,
                        ),
                        Option::None => true,
                    },
            decreases self.entries@.len() - j,
        {
            let e = self.entries[j];
            proof {
                assert(self.entries@[j as int] == e);
            }
            match self.find_item(e.item_id) {
                Some(it) => {
                    proof {
                        lemma_item_with_id_in_bag(self.bag@, e.item_id as int);
                    }
                    let area = UiArea {
                        x: e.location_x,
                        y: e.location_y,
                        w: it.inventory_w,
                        h: it.inventory_h,
                    };
                    if area.contains(x, y) {
                        proof {
                            assert(cell_blocked(self.bag@, self.entries@, x as int, y as int));
                        }
                        return true;
                    }
                },
                None => {},
            }
            j = j + 1;
        }
        false
    }

    /// First-fit search over the bag grid, rows outer and columns inner, for
    /// a spot where the item overlaps no placed entry; `[-1, -1]` when the
    /// bag has no such spot.
    pub fn find_free_location(&self, item: &Item) -> (r: [i32; 2])
        requires
            self.wf(),
            item_dims_ok(*item),
        ensures
            r[0] == -1 ==> r[1] == -1,
            r[0] == -1 && r[1] == -1 ==> forall|x: int, y: int|
                0 <= x < BAG_COLUMNS && 0 <= y < BAG_ROWS ==> spot_blocked(
                    self.bag@,
                    self.entries@,
                    x,
                    y,
                    item.inventory_w as int,
                    item.inventory_h as int,
                ),
            r[0] != -1 ==> {
                &&& 0 <= r[0] < BAG_COLUMNS
                &&& 0 <= r[1] < BAG_ROWS
                &&& !spot_blocked(
                    self.bag@,
                    self.entries@,
                    r[0] as int,
                    r[1] as int,
                    item.inventory_w as int,
                    item.inventory_h as int,
                )
                &&& earlier_spots_blocked(
                    self.bag@,
                    self.entries@,
                    r[0] as int,
                    r[1] as int,
                    item.inventory_w as int,
                    item.inventory_h as int,
                )
            },
    {
        let w = item.inventory_w;
        let h = item.inventory_h;
        let mut gy: i32 = 0;
        while gy < BAG_ROWS
            invariant
                0 <= gy <= BAG_ROWS,
                self.wf(),
                item_dims_ok(*item),
                w == item.inventory_w,
                h == item.inventory_h,
                forall|x: int, y: int|
                    0 <= x < BAG_COLUMNS && 0 <= y < gy ==> spot_blocked(
                        self.bag@,
                        self.entries@,
                        x,
                        y,
                        w as int,
                        h as int,
                    ),
            decreases BAG_ROWS - gy,
        {
            let mut gx: i32 = 0;
            while gx < BAG_COLUMNS
                invariant
                    0 <= gy < BAG_ROWS,
                    0 <= gx <= BAG_COLUMNS,
                    self.wf(),
                    item_dims_ok(*item),
                    w == item.inventory_w,
                    h == item.inventory_h,
                    forall|x: int, y: int|
                        0 <= x < BAG_COLUMNS && 0 <= y < gy ==> spot_blocked(
                            self.bag@,
                            self.entries@,
                            x,
                            y,
                            w as int,
                            h as int,
                        ),
                    forall|x: int|
                        0 <= x < gx ==> spot_blocked(
                            self.bag@,
                            self.entries@,
                            x,
                            gy as int,
                            w as int,
                            h as int,
                        ),
                decreases BAG_COLUMNS - gx,
            {
                if !self.is_spot_blocked(gx, gy, w, h) {
                    return [gx, gy];
                }
                gx = gx + 1;
            }
            gy = gy + 1;
        }
        [-1, -1]
    }

    /// Stores an item: bag items are placed at the first free grid spot (or
    /// at `[-1, -1]` when the bag is full), equipped items at the origin of
    /// their slot.
    pub fn put_item(&mut self, item: Item, slot: Slot)
        requires
            old(self).wf(),
            item_dims_ok(item),
        ensures
            final(self).wf(),
            final(self).bag@ == old(self).bag@.push(item),
            final(self).entries@.len() == old(self).entries@.len() + 1,
            final(self).entries@.last().item_id == item.id,
            final(self).entries@.last().slot == slot,
            final(self).entries@.drop_last() == old(self).entries@,
            slot != Slot::Bag ==> final(self).entries@.last().location_x == 0
                && final(self).entries@.last().location_y == 0,
    {
        let spot: [i32; 2] = if slot == Slot::Bag {
            self.find_free_location(&item)
        } else {
            [0, 0]
        };
        let entry = Entry { item_id: item.id, slot, location_x: spot[0], location_y: spot[1] };
        self.bag.push(item);
        self.entries.push(entry);
    }
}

} // verus!
