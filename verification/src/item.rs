use vstd::prelude::*;

use crate::inventory::Slot;
use crate::textfmt::{number_value, split_bytes, valid_number};

verus! {

/// A gameplay attribute an item modifier can raise or lower.
#[derive(PartialEq, Eq, Structural, Debug, Clone, Copy)]
pub enum Attribute {
    Structure,
    Agility,
    Armor,
    Computation,
    Speed,
    PhysicalDamage,
    PlasmaDamage,
    RadiationDamage,
    Integrity,
    Energy,
}

/// One modifier of an item: an attribute and the range it can roll in.
#[derive(PartialEq, Eq, Structural, Debug, Clone, Copy)]
pub struct Mod {
    pub attribute: Attribute,
    pub min_value: i32,
    pub max_value: i32,
}

/// An item carried by an entity or stored in an inventory. The simulation
/// core treats it as an opaque payload; sizes are in inventory grid cells and
/// the render scale is in milli-units.
#[derive(Debug, Clone)]
pub struct Item {
    pub id: usize,
    pub name: String,
    pub mods: Vec<Mod>,
    pub inventory_tile_id: usize,
    pub inventory_w: i32,
    pub inventory_h: i32,
    pub inventory_scale: i64,
    pub slot: Slot,
    pub map_tile_id: usize,
}

/// Sum of the minimum rolls of every modifier of `attr` among `mods`.
pub open spec fn mods_total(mods: Seq<Mod>, attr: Attribute) -> int
    decreases mods.len(),
{
    if mods.len() == 0 {
        0
    } else {
        mods_total(mods.drop_last(), attr) + if mods.last().attribute == attr {
            mods.last().min_value as int
        } else {
            0
        }
    }
}

pub proof fn lemma_mods_total_bound(mods: Seq<Mod>, attr: Attribute)
    ensures
        -(mods.len() as int) * 0x8000_0000 <= mods_total(mods, attr) <= (mods.len() as int)
            * 0x8000_0000,
    decreases mods.len(),
{
    if mods.len() > 0 {
        lemma_mods_total_bound(mods.drop_last(), attr);
        assert((mods.len() - 1) * 0x8000_0000 + 0x8000_0000 == (mods.len() as int)
            * 0x8000_0000) by (nonlinear_arith);
    }
}

impl Item {
    /// Total minimum contribution of this item to one attribute, summed over
    /// its modifiers.
    pub fn get_attribute_total_mod(&self, attribute: Attribute) -> (sum: i64)
        requires
            self.mods@.len() <= 0x10_0000,
        ensures
            sum as int == mods_total(self.mods@, attribute),
    {
        let mut sum: i64 = 0;
        let mut i: usize = 0;
        proof {
            lemma_mods_total_bound(self.mods@.take(0), attribute);
        }
        while i < self.mods.len()
            invariant
                i <= self.mods@.len() <= 0x10_0000,
                sum as int == mods_total(self.mods@.take(i as int), attribute),
                -(i as int) * 0x8000_0000 <= sum as int <= (i as int) * 0x8000_0000,
            decreases self.mods@.len() - i,
        {
            let m = &self.mods[i];
            proof {
                assert(self.mods@.take(i as int + 1).drop_last() =~= self.mods@.take(i as int));
                assert(self.mods@.take(i as int + 1).last() == self.mods@[i as int]);
                assert((i as int) * 0x8000_0000 + 0x8000_0000 == (i as int + 1) * 0x8000_0000)
                    by (nonlinear_arith);
            }
            if m.attribute == attribute {
                sum = sum + m.min_value as i64;
            }
            i = i + 1;
        }
        proof {
            assert(self.mods@.take(self.mods@.len() as int) =~= self.mods@);
        }
        sum
    }
}

/// A byte field holding a value that fits in an `i32`.
pub open spec fn i32_field(f: Seq<u8>) -> bool {
    valid_number(f) && i32::MIN <= number_value(f) <= i32::MAX
}

/// A byte field that `parse_range` accepts: either one number, or two
/// separated by a dash.
pub open spec fn valid_range_field(s: Seq<u8>) -> bool {
    let fs = split_bytes(s, 45);
    if fs.len() >= 2 {
        i32_field(fs[0]) && i32_field(fs[1])
    } else {
        i32_field(s)
    }
}

/// The pair a range field denotes: its two dash-separated values, or one
/// value twice.
pub open spec fn range_of(s: Seq<u8>) -> (int, int) {
    let fs = split_bytes(s, 45);
    if fs.len() >= 2 {
        (number_value(fs[0]), number_value(fs[1]))
    } else {
        (number_value(s), number_value(s))
    }
}

/// The inventory slot a prototype file column denotes; unknown codes mean
/// the bag.
pub fn calc_slot(v: i32) -> (r: Slot)
    ensures
        r == slot_of(v as int),
{
    match v {
        0 => Slot::Bag,
        1 => Slot::Stash,
        2 => Slot::Nose,
        3 => Slot::Body,
        4 => Slot::LWing,
        5 => Slot::RWing,
        6 => Slot::Engine,
        _ => Slot::Bag,
    }
}

pub open spec fn slot_of(v: int) -> Slot {
    if v == 1 {
        Slot::Stash
    } else if v == 2 {
        Slot::Nose
    } else if v == 3 {
        Slot::Body
    } else if v == 4 {
        Slot::LWing
    } else if v == 5 {
        Slot::RWing
    } else if v == 6 {
        Slot::Engine
    } else {
        Slot::Bag
    }
}

/// Parses a modifier range column: either a single value, or a
/// dash-separated minimum and maximum.
pub fn parse_range(input: &[u8]) -> (r: (i32, i32))
    requires
        valid_range_field(input@),
    ensures
        r.0 as int == range_of(input@).0,
        r.1 as int == range_of(input@).1,
{
    let fs = crate::textfmt::split_fields(input, 45);
    proof {
        assert(forall|i: int|
            0 <= i < fs@.len() ==> fs@.map_values(|f: Vec<u8>| f@)[i] == (#[trigger] fs@[i])@);
    }
    if fs.len() >= 2 {
        let min_value = parse_i32_field(fs[0].as_slice());
        let max_value = parse_i32_field(fs[1].as_slice());
        (min_value, max_value)
    } else {
        let value = parse_i32_field(input);
        (value, value)
    }
}

/// Parses one field known to hold an `i32`.
fn parse_i32_field(f: &[u8]) -> (r: i32)
    requires
        i32_field(f@),
    ensures
        r as int == number_value(f@),
{
    match crate::textfmt::parse_i64(f) {
        Some(v) => v as i32,
        None => {
            proof {
                assert(false);
            }
            0
        },
    }
}

/// Parses one modifier column into a modifier of the given attribute.
pub fn parse_mod(input: Option<&[u8]>, attribute: Attribute) -> (r: Mod)
    requires
        match input {
            Some(f) => valid_range_field(f@),
            None => false,
        },
    ensures
        input matches Some(f) && r == (Mod {
            attribute,
            min_value: range_of(f@).0 as i32,
            max_value: range_of(f@).1 as i32,
        }),
{
    let f = match input {
        Some(f) => f,
        None => {
            proof {
                assert(false);
            }
            &[]
        },
    };
    let (min_value, max_value) = parse_range(f);
    Mod { attribute, min_value, max_value }
}

/// Parses the eight modifier columns of a prototype row, in the fixed
/// attribute order of the file format.
pub fn parse_mods(parts: &Vec<Vec<u8>>, start: usize) -> (r: Vec<Mod>)
    requires
        start + 8 <= parts@.len(),
        forall|i: int| start <= i < start + 8 ==> valid_range_field((#[trigger] parts@[i])@),
    ensures
        r@.len() == 8,
        forall|i: int|
            0 <= i < 8 ==> (#[trigger] r@[i]) == (Mod {
                attribute: mod_column_attribute(i),
                min_value: range_of(parts@[start + i]@).0 as i32,
                max_value: range_of(parts@[start + i]@).1 as i32,
            }),
{
    let n = parts.len();
    proof {
        assert(start + 8 <= n);
    }
    let mut result: Vec<Mod> = Vec::new();
    result.push(parse_mod(Some(parts[start].as_slice()), Attribute::Structure));
    result.push(parse_mod(Some(parts[start + 1].as_slice()), Attribute::Agility));
    result.push(parse_mod(Some(parts[start + 2].as_slice()), Attribute::Armor));
    result.push(parse_mod(Some(parts[start + 3].as_slice()), Attribute::Computation));
    result.push(parse_mod(Some(parts[start + 4].as_slice()), Attribute::Speed));
    result.push(parse_mod(Some(parts[start + 5].as_slice()), Attribute::PhysicalDamage));
    result.push(parse_mod(Some(parts[start + 6].as_slice()), Attribute::PlasmaDamage));
    result.push(parse_mod(Some(parts[start + 7].as_slice()), Attribute::RadiationDamage));
    result
}

/// The attribute of each modifier column of a prototype row.
pub open spec fn mod_column_attribute(i: int) -> Attribute {
    if i == 0 {
        Attribute::Structure
    } else if i == 1 {
        Attribute::Agility
    } else if i == 2 {
        Attribute::Armor
    } else if i == 3 {
        Attribute::Computation
    } else if i == 4 {
        Attribute::Speed
    } else if i == 5 {
        Attribute::PhysicalDamage
    } else if i == 6 {
        Attribute::PlasmaDamage
    } else {
        Attribute::RadiationDamage
    }
}

} // verus!
