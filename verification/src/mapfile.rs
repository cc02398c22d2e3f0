use vstd::prelude::*;

use crate::entity::{BlendMode, Rgba, MAX_SCALAR};
use crate::num::{coord_ok, MAX_COORD};
use crate::textfmt::{
    int_rep, join_bytes, number_value, parse_i64, split_bytes, split_fields, valid_number,
};

verus! {

/// One persisted entity of a map file: one comma-separated line of the
/// objects section. Coordinates, height and scale are fixed-point
/// milli-units, written as plain integers.
#[derive(PartialEq, Eq, Structural, Debug, Clone, Copy)]
pub struct ObjectRecord {
    pub layer: usize,
    pub tile_id: usize,
    pub frames: usize,
    pub x: i64,
    pub y: i64,
    pub height: i64,
    pub scale: i64,
    pub color: Rgba,
    pub blend: BlendMode,
}

/// One persisted map transition: origin point, catchment radius and the
/// destination map selector.
#[derive(PartialEq, Eq, Structural, Debug, Clone, Copy)]
pub struct TransitionRecord {
    pub x: i64,
    pub y: i64,
    pub radius: i64,
    pub to: i32,
}

pub open spec fn object_record_ok(r: ObjectRecord) -> bool {
    &&& r.layer < 7
    &&& r.tile_id <= 0x1000_0000
    &&& 1 <= r.frames <= 0x10000
    &&& coord_ok(r.x as int)
    &&& coord_ok(r.y as int)
    &&& 0 <= r.height <= MAX_SCALAR
    &&& 0 <= r.scale <= MAX_SCALAR
}

pub open spec fn transition_record_ok(r: TransitionRecord) -> bool {
    &&& coord_ok(r.x as int)
    &&& coord_ok(r.y as int)
    &&& 0 <= r.radius <= MAX_COORD
}

/// The one-character key a blend mode is persisted as.
pub open spec fn blend_key(b: BlendMode) -> u8 {
    match b {
        BlendMode::Alpha => 110u8,  // n
        BlendMode::Add => 97u8,  // a
        BlendMode::Lighter => 108u8,  // l
        BlendMode::Multiply => 109u8,  // m
        BlendMode::Invert => 105u8,  // i
    }
}

/// The blend mode a key denotes; unknown keys fall back to alpha blending.
pub open spec fn key_blend(k: u8) -> BlendMode {
    if k == 97 {
        BlendMode::Add
    } else if k == 108 {
        BlendMode::Lighter
    } else if k == 109 {
        BlendMode::Multiply
    } else if k == 105 {
        BlendMode::Invert
    } else {
        BlendMode::Alpha
    }
}

/// The space-separated color field of an object line.
pub open spec fn color_field(c: Rgba) -> Seq<u8> {
    join_bytes(
        seq![int_rep(c.r as int), int_rep(c.g as int), int_rep(c.b as int), int_rep(c.a as int)],
        32,
    )
}

/// The comma-separated object line of a record.
pub open spec fn object_line(r: ObjectRecord) -> Seq<u8> {
    join_bytes(
        seq![
            int_rep(r.layer as int),
            int_rep(r.tile_id as int),
            int_rep(r.frames as int),
            int_rep(r.x as int),
            int_rep(r.y as int),
            int_rep(r.height as int),
            int_rep(r.scale as int),
            color_field(r.color),
            seq![blend_key(r.blend)],
        ],
        44,
    )
}

/// The comma-separated transition line of a record.
pub open spec fn transition_line(r: TransitionRecord) -> Seq<u8> {
    join_bytes(
        seq![int_rep(r.x as int), int_rep(r.y as int), int_rep(r.radius as int), int_rep(
            r.to as int,
        )],
        44,
    )
}

/// A comma-field that denotes a number within `[lo, hi]`.
pub open spec fn field_in_range(f: Seq<u8>, lo: int, hi: int) -> bool {
    valid_number(f) && lo <= number_value(f) <= hi
}

/// What an object line must look like to parse: nine comma fields, the seven
/// numeric ones in range, a four-part color field, and a one-byte blend key.
pub open spec fn object_line_ok(l: Seq<u8>) -> bool {
    let fs = split_bytes(l, 44);
    &&& fs.len() == 9
    &&& field_in_range(fs[0], 0, 6)
    &&& field_in_range(fs[1], 0, 0x1000_0000)
    &&& field_in_range(fs[2], 1, 0x10000)
    &&& field_in_range(fs[3], -MAX_COORD as int, MAX_COORD as int)
    &&& field_in_range(fs[4], -MAX_COORD as int, MAX_COORD as int)
    &&& field_in_range(fs[5], 0, MAX_SCALAR as int)
    &&& field_in_range(fs[6], 0, MAX_SCALAR as int)
    &&& ({
        let cs = split_bytes(fs[7], 32);
        &&& cs.len() == 4
        &&& field_in_range(cs[0], 0, 0xFFFF)
        &&& field_in_range(cs[1], 0, 0xFFFF)
        &&& field_in_range(cs[2], 0, 0xFFFF)
        &&& field_in_range(cs[3], 0, 0xFFFF)
    })
    &&& fs[8].len() == 1
}

/// The record an acceptable object line denotes.
pub open spec fn object_line_record(l: Seq<u8>) -> ObjectRecord {
    let fs = split_bytes(l, 44);
    let cs = split_bytes(fs[7], 32);
    ObjectRecord {
        layer: number_value(fs[0]) as usize,
        tile_id: number_value(fs[1]) as usize,
        frames: number_value(fs[2]) as usize,
        x: number_value(fs[3]) as i64,
        y: number_value(fs[4]) as i64,
        height: number_value(fs[5]) as i64,
        scale: number_value(fs[6]) as i64,
        color: Rgba {
            r: number_value(cs[0]) as u16,
            g: number_value(cs[1]) as u16,
            b: number_value(cs[2]) as u16,
            a: number_value(cs[3]) as u16,
        },
        blend: key_blend(fs[8][0]),
    }
}

/// What a transition line must look like to parse.
pub open spec fn transition_line_ok(l: Seq<u8>) -> bool {
    let fs = split_bytes(l, 44);
    &&& fs.len() == 4
    &&& field_in_range(fs[0], -MAX_COORD as int, MAX_COORD as int)
    &&& field_in_range(fs[1], -MAX_COORD as int, MAX_COORD as int)
    &&& field_in_range(fs[2], 0, MAX_COORD as int)
    &&& field_in_range(fs[3], i32::MIN as int, i32::MAX as int)
}

/// The record an acceptable transition line denotes.
pub open spec fn transition_line_record(l: Seq<u8>) -> TransitionRecord {
    let fs = split_bytes(l, 44);
    TransitionRecord {
        x: number_value(fs[0]) as i64,
        y: number_value(fs[1]) as i64,
        radius: number_value(fs[2]) as i64,
        to: number_value(fs[3]) as i32,
    }
}

/// Parses one line of the objects section; `None` exactly on a malformed or
/// out-of-range line.
pub fn parse_object_line(l: &[u8]) -> (r: Option<ObjectRecord>)
    ensures
        match r {
            Some(rec) => object_line_ok(l@) && rec == object_line_record(l@),
            None => !object_line_ok(l@),
        },
{
    let fs = split_fields(l, 44);
    if fs.len() != 9 {
        return None;
    }
    proof {
        assert(forall|i: int|
            0 <= i < 9 ==> fs@.map_values(|f: Vec<u8>| f@)[i] == (#[trigger] fs@[i])@);
    }
    let layer = match parse_in_range(fs[0].as_slice(), 0, 6) {
        Some(v) => v as usize,
        None => {
            return None;
        },
    };
    let tile_id = match parse_in_range(fs[1].as_slice(), 0, 0x1000_0000) {
        Some(v) => v as usize,
        None => {
            return None;
        },
    };
    let frames = match parse_in_range(fs[2].as_slice(), 1, 0x10000) {
        Some(v) => v as usize,
        None => {
            return None;
        },
    };
    let x = match parse_in_range(fs[3].as_slice(), -MAX_COORD, MAX_COORD) {
        Some(v) => v,
        None => {
            return None;
        },
    };
    let y = match parse_in_range(fs[4].as_slice(), -MAX_COORD, MAX_COORD) {
        Some(v) => v,
        None => {
            return None;
        },
    };
    let height = match parse_in_range(fs[5].as_slice(), 0, MAX_SCALAR) {
        Some(v) => v,
        None => {
            return None;
        },
    };
    let scale = match parse_in_range(fs[6].as_slice(), 0, MAX_SCALAR) {
        Some(v) => v,
        None => {
            return None;
        },
    };
    let cs = split_fields(fs[7].as_slice(), 32);
    if cs.len() != 4 {
        return None;
    }
    proof {
        assert(forall|i: int|
            0 <= i < 4 ==> cs@.map_values(|f: Vec<u8>| f@)[i] == (#[trigger] cs@[i])@);
    }
    let cr = match parse_in_range(cs[0].as_slice(), 0, 0xFFFF) {
        Some(v) => v as u16,
        None => {
            return None;
        },
    };
    let cg = match parse_in_range(cs[1].as_slice(), 0, 0xFFFF) {
        Some(v) => v as u16,
        None => {
            return None;
        },
    };
    let cb = match parse_in_range(cs[2].as_slice(), 0, 0xFFFF) {
        Some(v) => v as u16,
        None => {
            return None;
        },
    };
    let ca = match parse_in_range(cs[3].as_slice(), 0, 0xFFFF) {
        Some(v) => v as u16,
        None => {
            return None;
        },
    };
    if fs[8].len() != 1 {
        return None;
    }
    let blend = key_to_blend(fs[8][0]);
    Some(
        ObjectRecord {
            layer,
            tile_id,
            frames,
            x,
            y,
            height,
            scale,
            color: Rgba { r: cr, g: cg, b: cb, a: ca },
            blend,
        },
    )
}

/// Parses one line of the transitions section; `None` exactly on a malformed
/// or out-of-range line.
pub fn parse_transition_line(l: &[u8]) -> (r: Option<TransitionRecord>)
    ensures
        match r {
            Some(rec) => transition_line_ok(l@) && rec == transition_line_record(l@),
            None => !transition_line_ok(l@),
        },
{
    let fs = split_fields(l, 44);
    if fs.len() != 4 {
        return None;
    }
    proof {
        assert(forall|i: int|
            0 <= i < 4 ==> fs@.map_values(|f: Vec<u8>| f@)[i] == (#[trigger] fs@[i])@);
    }
    let x = match parse_in_range(fs[0].as_slice(), -MAX_COORD, MAX_COORD) {
        Some(v) => v,
        None => {
            return None;
        },
    };
    let y = match parse_in_range(fs[1].as_slice(), -MAX_COORD, MAX_COORD) {
        Some(v) => v,
        None => {
            return None;
        },
    };
    let radius = match parse_in_range(fs[2].as_slice(), 0, MAX_COORD) {
        Some(v) => v,
        None => {
            return None;
        },
    };
    let to = match parse_in_range(fs[3].as_slice(), i32::MIN as i64, i32::MAX as i64) {
        Some(v) => v as i32,
        None => {
            return None;
        },
    };
    Some(TransitionRecord { x, y, radius, to })
}

/// Parses a number and checks it against an inclusive range.
fn parse_in_range(f: &[u8], lo: i64, hi: i64) -> (r: Option<i64>)
    ensures
        match r {
            Some(v) => field_in_range(f@, lo as int, hi as int) && v as int == number_value(f@),
            None => !field_in_range(f@, lo as int, hi as int),
        },
{
    match parse_i64(f) {
        Some(v) => {
            if lo <= v && v <= hi {
                Some(v)
            } else {
                None
            }
        },
        None => None,
    }
}

/// The persisted key of each blend mode.
pub fn blend_to_key(b: BlendMode) -> (r: u8)
    ensures
        r == blend_key(b),
{
    match b {
        BlendMode::Alpha => 110,
        BlendMode::Add => 97,
        BlendMode::Lighter => 108,
        BlendMode::Multiply => 109,
        BlendMode::Invert => 105,
    }
}

/// The blend mode of a persisted key; unknown keys mean alpha blending.
pub fn key_to_blend(k: u8) -> (r: BlendMode)
    ensures
        r == key_blend(k),
{
    if k == 97 {
        BlendMode::Add
    } else if k == 108 {
        BlendMode::Lighter
    } else if k == 109 {
        BlendMode::Multiply
    } else if k == 105 {
        BlendMode::Invert
    } else {
        BlendMode::Alpha
    }
}

/// Writes the object line of a record to the end of `out`.
#[verifier::rlimit(60)]
pub fn format_object_line(r: &ObjectRecord, out: &mut Vec<u8>)
    requires
        object_record_ok(*r),
    ensures
        final(out)@ == old(out)@ + object_line(*r),
{
    let ghost out0 = out@;
    crate::textfmt::format_i64(r.layer as i64, out);
    out.push(44);
    crate::textfmt::format_i64(r.tile_id as i64, out);
    out.push(44);
    crate::textfmt::format_i64(r.frames as i64, out);
    out.push(44);
    crate::textfmt::format_i64(r.x, out);
    out.push(44);
    crate::textfmt::format_i64(r.y, out);
    out.push(44);
    crate::textfmt::format_i64(r.height, out);
    out.push(44);
    crate::textfmt::format_i64(r.scale, out);
    out.push(44);
    crate::textfmt::format_i64(r.color.r as i64, out);
    out.push(32);
    crate::textfmt::format_i64(r.color.g as i64, out);
    out.push(32);
    crate::textfmt::format_i64(r.color.b as i64, out);
    out.push(32);
    crate::textfmt::format_i64(r.color.a as i64, out);
    out.push(44);
    out.push(blend_to_key(r.blend));
    proof {
        lemma_join_unfold_object(*r);
        assert(out@ =~= out0 + object_line(*r));
    }
}

/// Writes the transition line of a record to the end of `out`.
pub fn format_transition_line(r: &TransitionRecord, out: &mut Vec<u8>)
    requires
        transition_record_ok(*r),
    ensures
        final(out)@ == old(out)@ + transition_line(*r),
{
    let ghost out0 = out@;
    crate::textfmt::format_i64(r.x, out);
    out.push(44);
    crate::textfmt::format_i64(r.y, out);
    out.push(44);
    crate::textfmt::format_i64(r.radius, out);
    out.push(44);
    crate::textfmt::format_i64(r.to as i64, out);
    proof {
        lemma_join_unfold_transition(*r);
        assert(out@ =~= out0 + transition_line(*r));
    }
}

proof fn lemma_join4(a: Seq<u8>, b: Seq<u8>, c: Seq<u8>, d: Seq<u8>, sep: u8)
    ensures
        join_bytes(seq![a, b, c, d], sep) == a + seq![sep] + b + seq![sep] + c + seq![sep] + d,
{
    let s4 = seq![a, b, c, d];
    let s3 = seq![b, c, d];
    let s2 = seq![c, d];
    let s1 = seq![d];
    assert(s4.drop_first() =~= s3);
    assert(s3.drop_first() =~= s2);
    assert(s2.drop_first() =~= s1);
    assert(join_bytes(s1, sep) == d);
    assert(join_bytes(s2, sep) == c + seq![sep] + d);
    assert(join_bytes(s3, sep) == b + seq![sep] + (c + seq![sep] + d));
    assert(join_bytes(s4, sep) == a + seq![sep] + (b + seq![sep] + (c + seq![sep] + d)));
    assert(a + seq![sep] + (b + seq![sep] + (c + seq![sep] + d)) =~= a + seq![sep] + b + seq![sep]
        + c + seq![sep] + d);
}

#[verifier::rlimit(60)]
proof fn lemma_join9(
    f0: Seq<u8>,
    f1: Seq<u8>,
    f2: Seq<u8>,
    f3: Seq<u8>,
    f4: Seq<u8>,
    f5: Seq<u8>,
    f6: Seq<u8>,
    f7: Seq<u8>,
    f8: Seq<u8>,
    sep: u8,
)
    ensures
        join_bytes(seq![f0, f1, f2, f3, f4, f5, f6, f7, f8], sep) == f0 + seq![sep] + f1 + seq![
            sep,
        ] + f2 + seq![sep] + f3 + seq![sep] + f4 + seq![sep] + f5 + seq![sep] + f6 + seq![sep] + f7
            + seq![sep] + f8,
{
    let s9 = seq![f0, f1, f2, f3, f4, f5, f6, f7, f8];
    let s8 = seq![f1, f2, f3, f4, f5, f6, f7, f8];
    let s7 = seq![f2, f3, f4, f5, f6, f7, f8];
    let s6 = seq![f3, f4, f5, f6, f7, f8];
    let s5 = seq![f4, f5, f6, f7, f8];
    let s4 = seq![f5, f6, f7, f8];
    let s3 = seq![f6, f7, f8];
    let s2 = seq![f7, f8];
    let s1 = seq![f8];
    assert(s9.drop_first() =~= s8);
    assert(s8.drop_first() =~= s7);
    assert(s7.drop_first() =~= s6);
    assert(s6.drop_first() =~= s5);
    assert(s5.drop_first() =~= s4);
    assert(s4.drop_first() =~= s3);
    assert(s3.drop_first() =~= s2);
    assert(s2.drop_first() =~= s1);
    assert(join_bytes(s1, sep) == f8);
    assert(join_bytes(s2, sep) == f7 + seq![sep] + f8);
    assert(join_bytes(s3, sep) == f6 + seq![sep] + join_bytes(s2, sep));
    assert(join_bytes(s4, sep) == f5 + seq![sep] + join_bytes(s3, sep));
    assert(join_bytes(s5, sep) == f4 + seq![sep] + join_bytes(s4, sep));
    assert(join_bytes(s6, sep) == f3 + seq![sep] + join_bytes(s5, sep));
    assert(join_bytes(s7, sep) == f2 + seq![sep] + join_bytes(s6, sep));
    assert(join_bytes(s8, sep) == f1 + seq![sep] + join_bytes(s7, sep));
    assert(join_bytes(s9, sep) == f0 + seq![sep] + join_bytes(s8, sep));
    assert(f0 + seq![sep] + (f1 + seq![sep] + (f2 + seq![sep] + (f3 + seq![sep] + (f4 + seq![sep]
        + (f5 + seq![sep] + (f6 + seq![sep] + (f7 + seq![sep] + f8))))))) =~= f0 + seq![sep] + f1
        + seq![sep] + f2 + seq![sep] + f3 + seq![sep] + f4 + seq![sep] + f5 + seq![sep] + f6
        + seq![sep] + f7 + seq![sep] + f8);
}

proof fn lemma_join_unfold_object(r: ObjectRecord)
    ensures
        object_line(r) == int_rep(r.layer as int) + seq![44u8] + int_rep(r.tile_id as int) + seq![
            44u8,
        ] + int_rep(r.frames as int) + seq![44u8] + int_rep(r.x as int) + seq![44u8] + int_rep(
            r.y as int,
        ) + seq![44u8] + int_rep(r.height as int) + seq![44u8] + int_rep(r.scale as int) + seq![
            44u8,
        ] + (int_rep(r.color.r as int) + seq![32u8] + int_rep(r.color.g as int) + seq![32u8]
            + int_rep(r.color.b as int) + seq![32u8] + int_rep(r.color.a as int)) + seq![44u8]
            + seq![blend_key(r.blend)],
{
    lemma_join4(
        int_rep(r.color.r as int),
        int_rep(r.color.g as int),
        int_rep(r.color.b as int),
        int_rep(r.color.a as int),
        32,
    );
    lemma_join9(
        int_rep(r.layer as int),
        int_rep(r.tile_id as int),
        int_rep(r.frames as int),
        int_rep(r.x as int),
        int_rep(r.y as int),
        int_rep(r.height as int),
        int_rep(r.scale as int),
        color_field(r.color),
        seq![blend_key(r.blend)],
        44,
    );
}

proof fn lemma_join_unfold_transition(r: TransitionRecord)
    ensures
        transition_line(r) == int_rep(r.x as int) + seq![44u8] + int_rep(r.y as int) + seq![44u8]
            + int_rep(r.radius as int) + seq![44u8] + int_rep(r.to as int),
{
    lemma_join4(int_rep(r.x as int), int_rep(r.y as int), int_rep(r.radius as int), int_rep(
        r.to as int,
    ), 44);
}

/// Every byte of a number's canonical form is a minus sign or a digit, so a
/// formatted number never collides with a comma, a space or a newline.
proof fn lemma_int_rep_bytes(n: int)
    ensures
        forall|k: int|
            0 <= k < int_rep(n).len() ==> (#[trigger] int_rep(n)[k]) == 45 || crate::textfmt::is_digit(
                int_rep(n)[k],
            ),
{
    lemma_nat_rep_bytes(if n < 0 {
        -n
    } else {
        n
    });
    if n < 0 {
        assert(forall|k: int|
            1 <= k < int_rep(n).len() ==> (#[trigger] int_rep(n)[k]) == nat_rep_of(n)[k - 1]);
    }
}

/// The digit string of a non-negative number, named for lemma plumbing.
spec fn nat_rep_of(n: int) -> Seq<u8> {
    crate::textfmt::nat_rep(if n < 0 {
        -n
    } else {
        n
    })
}

proof fn lemma_nat_rep_bytes(n: int)
    requires
        n >= 0,
    ensures
        forall|k: int|
            0 <= k < crate::textfmt::nat_rep(n).len() ==> crate::textfmt::is_digit(
                #[trigger] crate::textfmt::nat_rep(n)[k],
            ),
    decreases n,
{
    let rep = crate::textfmt::nat_rep(n);
    if n < 10 {
        assert forall|k: int| 0 <= k < rep.len() implies crate::textfmt::is_digit(
            #[trigger] rep[k],
        ) by {
            assert(rep.len() == 1);
            assert(rep[0] == if n <= 0 {
                48u8
            } else {
                (48 + n) as u8
            });
        }
    } else {
        lemma_nat_rep_bytes(n / 10);
        let base = crate::textfmt::nat_rep(n / 10);
        assert forall|k: int| 0 <= k < rep.len() implies crate::textfmt::is_digit(
            #[trigger] rep[k],
        ) by {
            assert(rep == base.push((48 + n % 10) as u8));
            if k < base.len() {
                assert(rep[k] == base[k]);
            } else {
                assert(rep[k] == (48 + n % 10) as u8);
            }
        }
    }
}

/// The numeric fields of an object record survive persisting exactly: the
/// line written for a well-formed record parses back to the same record.
pub proof fn lemma_object_line_roundtrip(r: ObjectRecord)
    requires
        object_record_ok(r),
    ensures
        object_line_ok(object_line(r)),
        object_line_record(object_line(r)) == r,
{
    let inner = seq![
        int_rep(r.color.r as int),
        int_rep(r.color.g as int),
        int_rep(r.color.b as int),
        int_rep(r.color.a as int),
    ];
    let fields = seq![
        int_rep(r.layer as int),
        int_rep(r.tile_id as int),
        int_rep(r.frames as int),
        int_rep(r.x as int),
        int_rep(r.y as int),
        int_rep(r.height as int),
        int_rep(r.scale as int),
        color_field(r.color),
        seq![blend_key(r.blend)],
    ];
    lemma_int_rep_bytes(r.layer as int);
    lemma_int_rep_bytes(r.tile_id as int);
    lemma_int_rep_bytes(r.frames as int);
    lemma_int_rep_bytes(r.x as int);
    lemma_int_rep_bytes(r.y as int);
    lemma_int_rep_bytes(r.height as int);
    lemma_int_rep_bytes(r.scale as int);
    lemma_int_rep_bytes(r.color.r as int);
    lemma_int_rep_bytes(r.color.g as int);
    lemma_int_rep_bytes(r.color.b as int);
    lemma_int_rep_bytes(r.color.a as int);
    assert forall|i: int, k: int|
        0 <= i < inner.len() && 0 <= k < inner[i].len() implies (#[trigger] inner[i][k]) != 32 by {
        assert(inner[i][k] == 45 || crate::textfmt::is_digit(inner[i][k]));
    }
    crate::textfmt::lemma_split_join(inner, 32);
    assert forall|i: int, k: int|
        0 <= i < fields.len() && 0 <= k < fields[i].len() implies (#[trigger] fields[i][k])
        != 44 by {
        if i < 7 {
            assert(fields[i][k] == 45 || crate::textfmt::is_digit(fields[i][k]));
        } else if i == 7 {
            lemma_color_field_bytes(r.color);
        } else {
            assert(fields[8][k] == blend_key(r.blend));
        }
    }
    crate::textfmt::lemma_split_join(fields, 44);
    crate::textfmt::lemma_number_roundtrip(r.layer as int);
    crate::textfmt::lemma_number_roundtrip(r.tile_id as int);
    crate::textfmt::lemma_number_roundtrip(r.frames as int);
    crate::textfmt::lemma_number_roundtrip(r.x as int);
    crate::textfmt::lemma_number_roundtrip(r.y as int);
    crate::textfmt::lemma_number_roundtrip(r.height as int);
    crate::textfmt::lemma_number_roundtrip(r.scale as int);
    crate::textfmt::lemma_number_roundtrip(r.color.r as int);
    crate::textfmt::lemma_number_roundtrip(r.color.g as int);
    crate::textfmt::lemma_number_roundtrip(r.color.b as int);
    crate::textfmt::lemma_number_roundtrip(r.color.a as int);
}

/// Every byte of a color field is a space or a digit.
proof fn lemma_color_field_bytes(c: Rgba)
    ensures
        forall|k: int|
            0 <= k < color_field(c).len() ==> (#[trigger] color_field(c)[k]) == 32
                || crate::textfmt::is_digit(color_field(c)[k]),
{
    lemma_nat_rep_bytes(c.r as int);
    lemma_nat_rep_bytes(c.g as int);
    lemma_nat_rep_bytes(c.b as int);
    lemma_nat_rep_bytes(c.a as int);
    lemma_join4(int_rep(c.r as int), int_rep(c.g as int), int_rep(c.b as int), int_rep(
        c.a as int,
    ), 32);
}

/// The numeric fields of a transition record survive persisting exactly.
pub proof fn lemma_transition_line_roundtrip(r: TransitionRecord)
    requires
        transition_record_ok(r),
    ensures
        transition_line_ok(transition_line(r)),
        transition_line_record(transition_line(r)) == r,
{
    let fields = seq![int_rep(r.x as int), int_rep(r.y as int), int_rep(r.radius as int), int_rep(
        r.to as int,
    )];
    lemma_int_rep_bytes(r.x as int);
    lemma_int_rep_bytes(r.y as int);
    lemma_int_rep_bytes(r.radius as int);
    lemma_int_rep_bytes(r.to as int);
    assert forall|i: int, k: int|
        0 <= i < fields.len() && 0 <= k < fields[i].len() implies (#[trigger] fields[i][k])
        != 44 by {
        assert(fields[i][k] == 45 || crate::textfmt::is_digit(fields[i][k]));
    }
    crate::textfmt::lemma_split_join(fields, 44);
    crate::textfmt::lemma_number_roundtrip(r.x as int);
    crate::textfmt::lemma_number_roundtrip(r.y as int);
    crate::textfmt::lemma_number_roundtrip(r.radius as int);
    crate::textfmt::lemma_number_roundtrip(r.to as int);
}

/// The marker line `v10`.
pub open spec fn lit_version() -> Seq<u8> {
    seq![118u8, 49u8, 48u8]
}

/// The marker line `begin map header`.
pub open spec fn lit_begin_header() -> Seq<u8> {
    seq![98u8, 101u8, 103u8, 105u8, 110u8, 32u8, 109u8, 97u8, 112u8, 32u8, 104u8, 101u8, 97u8, 100u8, 101u8, 114u8]
}

/// The marker line `end map header`.
pub open spec fn lit_end_header() -> Seq<u8> {
    seq![101u8, 110u8, 100u8, 32u8, 109u8, 97u8, 112u8, 32u8, 104u8, 101u8, 97u8, 100u8, 101u8, 114u8]
}

/// The marker line `begin map objects`.
pub open spec fn lit_begin_objects() -> Seq<u8> {
    seq![98u8, 101u8, 103u8, 105u8, 110u8, 32u8, 109u8, 97u8, 112u8, 32u8, 111u8, 98u8, 106u8, 101u8, 99u8, 116u8, 115u8]
}

/// The marker line `end map objects`.
pub open spec fn lit_end_objects() -> Seq<u8> {
    seq![101u8, 110u8, 100u8, 32u8, 109u8, 97u8, 112u8, 32u8, 111u8, 98u8, 106u8, 101u8, 99u8, 116u8, 115u8]
}

/// The marker line `begin map transitions`.
pub open spec fn lit_begin_transitions() -> Seq<u8> {
    seq![98u8, 101u8, 103u8, 105u8, 110u8, 32u8, 109u8, 97u8, 112u8, 32u8, 116u8, 114u8, 97u8, 110u8, 115u8, 105u8, 116u8, 105u8, 111u8, 110u8, 115u8]
}

/// The marker line `end map transitions`.
pub open spec fn lit_end_transitions() -> Seq<u8> {
    seq![101u8, 110u8, 100u8, 32u8, 109u8, 97u8, 112u8, 32u8, 116u8, 114u8, 97u8, 110u8, 115u8, 105u8, 116u8, 105u8, 111u8, 110u8, 115u8]
}

fn lit_version_line() -> (r: Vec<u8>)
    ensures
        r@ == lit_version(),
{
    let mut v: Vec<u8> = Vec::new();
    v.push(118);
    v.push(49);
    v.push(48);
    proof {
        assert(v@ =~= lit_version());
    }
    v
}

fn lit_begin_header_line() -> (r: Vec<u8>)
    ensures
        r@ == lit_begin_header(),
{
    let mut v: Vec<u8> = Vec::new();
    v.push(98);
    v.push(101);
    v.push(103);
    v.push(105);
    v.push(110);
    v.push(32);
    v.push(109);
    v.push(97);
    v.push(112);
    v.push(32);
    v.push(104);
    v.push(101);
    v.push(97);
    v.push(100);
    v.push(101);
    v.push(114);
    proof {
        assert(v@ =~= lit_begin_header());
    }
    v
}

fn lit_end_header_line() -> (r: Vec<u8>)
    ensures
        r@ == lit_end_header(),
{
    let mut v: Vec<u8> = Vec::new();
    v.push(101);
    v.push(110);
    v.push(100);
    v.push(32);
    v.push(109);
    v.push(97);
    v.push(112);
    v.push(32);
    v.push(104);
    v.push(101);
    v.push(97);
    v.push(100);
    v.push(101);
    v.push(114);
    proof {
        assert(v@ =~= lit_end_header());
    }
    v
}

fn lit_begin_objects_line() -> (r: Vec<u8>)
    ensures
        r@ == lit_begin_objects(),
{
    let mut v: Vec<u8> = Vec::new();
    v.push(98);
    v.push(101);
    v.push(103);
    v.push(105);
    v.push(110);
    v.push(32);
    v.push(109);
    v.push(97);
    v.push(112);
    v.push(32);
    v.push(111);
    v.push(98);
    v.push(106);
    v.push(101);
    v.push(99);
    v.push(116);
    v.push(115);
    proof {
        assert(v@ =~= lit_begin_objects());
    }
    v
}

fn lit_end_objects_line() -> (r: Vec<u8>)
    ensures
        r@ == lit_end_objects(),
{
    let mut v: Vec<u8> = Vec::new();
    v.push(101);
    v.push(110);
    v.push(100);
    v.push(32);
    v.push(109);
    v.push(97);
    v.push(112);
    v.push(32);
    v.push(111);
    v.push(98);
    v.push(106);
    v.push(101);
    v.push(99);
    v.push(116);
    v.push(115);
    proof {
        assert(v@ =~= lit_end_objects());
    }
    v
}

fn lit_begin_transitions_line() -> (r: Vec<u8>)
    ensures
        r@ == lit_begin_transitions(),
{
    let mut v: Vec<u8> = Vec::new();
    v.push(98);
    v.push(101);
    v.push(103);
    v.push(105);
    v.push(110);
    v.push(32);
    v.push(109);
    v.push(97);
    v.push(112);
    v.push(32);
    v.push(116);
    v.push(114);
    v.push(97);
    v.push(110);
    v.push(115);
    v.push(105);
    v.push(116);
    v.push(105);
    v.push(111);
    v.push(110);
    v.push(115);
    proof {
        assert(v@ =~= lit_begin_transitions());
    }
    v
}

fn lit_end_transitions_line() -> (r: Vec<u8>)
    ensures
        r@ == lit_end_transitions(),
{
    let mut v: Vec<u8> = Vec::new();
    v.push(101);
    v.push(110);
    v.push(100);
    v.push(32);
    v.push(109);
    v.push(97);
    v.push(112);
    v.push(32);
    v.push(116);
    v.push(114);
    v.push(97);
    v.push(110);
    v.push(115);
    v.push(105);
    v.push(116);
    v.push(105);
    v.push(111);
    v.push(110);
    v.push(115);
    proof {
        assert(v@ =~= lit_end_transitions());
    }
    v
}

/// Everything one map file holds, as plain values: the header names and the
/// object and transition records. The player entity is never written.
#[derive(Debug)]
pub struct MapData {
    pub name: Vec<u8>,
    pub map_image_name: Vec<u8>,
    pub backdrop_image_name: Vec<u8>,
    pub objects: Vec<ObjectRecord>,
    pub transitions: Vec<TransitionRecord>,
}

pub open spec fn line_text_ok(s: Seq<u8>) -> bool {
    forall|i: int| 0 <= i < s.len() ==> (#[trigger] s[i]) != 10
}

impl MapData {
    pub open spec fn wf(&self) -> bool {
        &&& line_text_ok(self.name@)
        &&& line_text_ok(self.map_image_name@)
        &&& line_text_ok(self.backdrop_image_name@)
        &&& forall|i: int| 0 <= i < self.objects@.len() ==> object_record_ok(#[trigger] self.objects@[i])
        &&& forall|i: int|
            0 <= i < self.transitions@.len() ==> transition_record_ok(
                #[trigger] self.transitions@[i],
            )
    }
}

/// The lines of the persisted text form of a map.
pub open spec fn map_lines(
    name: Seq<u8>,
    map_image_name: Seq<u8>,
    backdrop_image_name: Seq<u8>,
    objects: Seq<ObjectRecord>,
    transitions: Seq<TransitionRecord>,
) -> Seq<Seq<u8>> {
    seq![
        lit_version(),
        lit_begin_header(),
        name,
        map_image_name,
        backdrop_image_name,
        lit_end_header(),
        lit_begin_objects(),
    ] + objects.map_values(|r: ObjectRecord| object_line(r)) + seq![
        lit_end_objects(),
        lit_begin_transitions(),
    ] + transitions.map_values(|r: TransitionRecord| transition_line(r)) + seq![
        lit_end_transitions(),
    ]
}

/// The full text of a map file: its lines joined with newlines.
pub open spec fn map_text(d: MapData) -> Seq<u8> {
    join_bytes(
        map_lines(d.name@, d.map_image_name@, d.backdrop_image_name@, d.objects@, d.transitions@),
        10,
    )
}

/// Appending a line to a join: the separator goes between, never at the end.
proof fn lemma_join_push(fs: Seq<Seq<u8>>, x: Seq<u8>, sep: u8)
    ensures
        join_bytes(fs.push(x), sep) == if fs.len() == 0 {
            x
        } else {
            join_bytes(fs, sep) + seq![sep] + x
        },
    decreases fs.len(),
{
    if fs.len() == 0 {
        assert(fs.push(x) =~= seq![x]);
        assert(join_bytes(seq![x], sep) == x);
    } else {
        let g = fs.push(x);
        assert(g.drop_first() =~= fs.drop_first().push(x));
        lemma_join_push(fs.drop_first(), x, sep);
        if fs.len() == 1 {
            assert(fs.drop_first().len() == 0);
            assert(join_bytes(g, sep) == g[0] + seq![sep] + x);
            assert(join_bytes(fs, sep) == fs[0]);
            assert(g[0] == fs[0]);
        } else {
            assert(join_bytes(g, sep) == g[0] + seq![sep] + (join_bytes(fs.drop_first(), sep)
                + seq![sep] + x));
            assert(join_bytes(fs, sep) == fs[0] + seq![sep] + join_bytes(fs.drop_first(), sep));
            assert(g[0] + seq![sep] + (join_bytes(fs.drop_first(), sep) + seq![sep] + x) =~= (
            fs[0] + seq![sep] + join_bytes(fs.drop_first(), sep)) + seq![sep] + x);
        }
    }
}

/// Joins prepared lines with newlines.
fn join_lines(lines: &Vec<Vec<u8>>) -> (r: Vec<u8>)
    requires
        lines@.len() >= 1,
    ensures
        r@ == join_bytes(lines@.map_values(|l: Vec<u8>| l@), 10),
{
    let ghost views = lines@.map_values(|l: Vec<u8>| l@);
    let mut out: Vec<u8> = Vec::new();
    let mut i: usize = 0;
    while i < lines.len()
        invariant
            i <= lines@.len(),
            views == lines@.map_values(|l: Vec<u8>| l@),
            i == 0 ==> out@.len() == 0,
            i > 0 ==> out@ == join_bytes(views.take(i as int), 10),
        decreases lines@.len() - i,
    {
        if i > 0 {
            out.push(10);
        }
        let mut j: usize = 0;
        let ghost mid = out@;
        while j < lines[i].len()
            invariant
                j <= lines@[i as int]@.len(),
                i < lines@.len(),
                out@ == mid + lines@[i as int]@.take(j as int),
            decreases lines@[i as int]@.len() - j,
        {
            let b = lines[i][j];
            out.push(b);
            proof {
                assert(lines@[i as int]@.take(j + 1) =~= lines@[i as int]@.take(j as int).push(
                    lines@[i as int]@[j as int],
                ));
            }
            j = j + 1;
        }
        proof {
            assert(lines@[i as int]@.take(lines@[i as int]@.len() as int) =~= lines@[i as int]@);
            assert(views.take(i + 1) =~= views.take(i as int).push(views[i as int]));
            lemma_join_push(views.take(i as int), views[i as int], 10);
            if i == 0 {
                assert(out@ =~= views[0]);
                assert(views.take(1) =~= seq![views[0]]);
                assert(join_bytes(views.take(1), 10) == views[0]);
            } else {
                assert(out@ =~= join_bytes(views.take(i as int), 10) + seq![10u8]
                    + views[i as int]);
            }
        }
        i = i + 1;
    }
    proof {
        assert(views.take(views.len() as int) =~= views);
        assert(lines@.len() >= 1);
    }
    out
}

/// Writes a map out in the persisted text format, exactly the lines of
/// `map_text`.
pub fn serialize_map(d: &MapData) -> (r: Vec<u8>)
    requires
        d.wf(),
    ensures
        r@ == map_text(*d),
{
    let mut lines: Vec<Vec<u8>> = Vec::new();
    lines.push(lit_version_line());
    lines.push(lit_begin_header_line());
    lines.push(vstd::slice::slice_to_vec(d.name.as_slice()));
    lines.push(vstd::slice::slice_to_vec(d.map_image_name.as_slice()));
    lines.push(vstd::slice::slice_to_vec(d.backdrop_image_name.as_slice()));
    lines.push(lit_end_header_line());
    lines.push(lit_begin_objects_line());
    let mut i: usize = 0;
    while i < d.objects.len()
        invariant
            i <= d.objects@.len(),
            d.wf(),
            lines@.len() == 7 + i,
            lines@.map_values(|l: Vec<u8>| l@) =~= seq![
                lit_version(),
                lit_begin_header(),
                d.name@,
                d.map_image_name@,
                d.backdrop_image_name@,
                lit_end_header(),
                lit_begin_objects(),
            ] + d.objects@.take(i as int).map_values(|r: ObjectRecord| object_line(r)),
        decreases d.objects@.len() - i,
    {
        let mut line: Vec<u8> = Vec::new();
        format_object_line(&d.objects[i], &mut line);
        proof {
            assert(line@ =~= object_line(d.objects@[i as int]));
        }
        let ghost pre_lines = lines@;
        let ghost pre_map = lines@.map_values(|l: Vec<u8>| l@);
        lines.push(line);
        proof {
            assert(d.objects@.take(i + 1) =~= d.objects@.take(i as int).push(
                d.objects@[i as int],
            ));
            assert(d.objects@.take(i + 1).map_values(|r: ObjectRecord| object_line(r))
                =~= d.objects@.take(i as int).map_values(|r: ObjectRecord| object_line(r)).push(
                object_line(d.objects@[i as int]),
            ));
            assert(lines@ =~= pre_lines.push(line));
            assert(lines@.map_values(|l: Vec<u8>| l@) =~= pre_map.push(line@));
        }
        i = i + 1;
    }
    proof {
        assert(d.objects@.take(d.objects@.len() as int) =~= d.objects@);
    }
    lines.push(lit_end_objects_line());
    lines.push(lit_begin_transitions_line());
    let ghost head = seq![
        lit_version(),
        lit_begin_header(),
        d.name@,
        d.map_image_name@,
        d.backdrop_image_name@,
        lit_end_header(),
        lit_begin_objects(),
    ] + d.objects@.map_values(|r: ObjectRecord| object_line(r)) + seq![
        lit_end_objects(),
        lit_begin_transitions(),
    ];
    proof {
        assert(lines@.map_values(|l: Vec<u8>| l@) =~= head);
    }
    let mut t: usize = 0;
    while t < d.transitions.len()
        invariant
            t <= d.transitions@.len(),
            d.wf(),
            lines@.len() == head.len() + t,
            lines@.map_values(|l: Vec<u8>| l@) =~= head + d.transitions@.take(
                t as int,
            ).map_values(|r: TransitionRecord| transition_line(r)),
        decreases d.transitions@.len() - t,
    {
        let mut line: Vec<u8> = Vec::new();
        format_transition_line(&d.transitions[t], &mut line);
        proof {
            assert(line@ =~= transition_line(d.transitions@[t as int]));
        }
        let ghost pre_lines = lines@;
        let ghost pre_map = lines@.map_values(|l: Vec<u8>| l@);
        lines.push(line);
        proof {
            assert(d.transitions@.take(t + 1) =~= d.transitions@.take(t as int).push(
                d.transitions@[t as int],
            ));
            assert(d.transitions@.take(t + 1).map_values(|r: TransitionRecord| transition_line(r))
                =~= d.transitions@.take(t as int).map_values(
                |r: TransitionRecord| transition_line(r),
            ).push(transition_line(d.transitions@[t as int])));
            assert(lines@ =~= pre_lines.push(line));
            assert(lines@.map_values(|l: Vec<u8>| l@) =~= pre_map.push(line@));
        }
        t = t + 1;
    }
    proof {
        assert(d.transitions@.take(d.transitions@.len() as int) =~= d.transitions@);
    }
    lines.push(lit_end_transitions_line());
    proof {
        assert(lines@.map_values(|l: Vec<u8>| l@) =~= lines@.drop_last().map_values(
            |l: Vec<u8>| l@,
        ).push(lines@.last()@));
        assert(lines@.map_values(|l: Vec<u8>| l@) =~= map_lines(
            d.name@,
            d.map_image_name@,
            d.backdrop_image_name@,
            d.objects@,
            d.transitions@,
        ));
    }
    join_lines(&lines)
}

/// Compares two byte strings.
fn bytes_eq(a: &[u8], b: &[u8]) -> (r: bool)
    ensures
        r == (a@ == b@),
{
    if a.len() != b.len() {
        proof {
            assert(a@ != b@);
        }
        return false;
    }
    let mut i: usize = 0;
    while i < a.len()
        invariant
            i <= a@.len(),
            a@.len() == b@.len(),
            forall|j: int| 0 <= j < i ==> a@[j] == (#[trigger] b@[j]),
        decreases a@.len() - i,
    {
        if a[i] != b[i] {
            return false;
        }
        i = i + 1;
    }
    proof {
        assert(a@ =~= b@);
    }
    true
}

/// The object records read from the lines at `i` on, up to and past the
/// section end marker; `None` when a line is malformed or the marker never
/// comes.
pub open spec fn parse_objects_at(lines: Seq<Seq<u8>>, i: int) -> Option<(Seq<ObjectRecord>, int)>
    decreases lines.len() - i,
{
    if i < 0 || i >= lines.len() {
        Option::None
    } else if lines[i] == lit_end_objects() {
        Option::Some((Seq::empty(), i + 1))
    } else if object_line_ok(lines[i]) {
        match parse_objects_at(lines, i + 1) {
            Option::Some((rest, j)) => Option::Some(
                (seq![object_line_record(lines[i])] + rest, j),
            ),
            Option::None => Option::None,
        }
    } else {
        Option::None
    }
}

/// The transition records read from the lines at `i` on, analogous to the
/// object section.
pub open spec fn parse_transitions_at(lines: Seq<Seq<u8>>, i: int) -> Option<
    (Seq<TransitionRecord>, int),
>
    decreases lines.len() - i,
{
    if i < 0 || i >= lines.len() {
        Option::None
    } else if lines[i] == lit_end_transitions() {
        Option::Some((Seq::empty(), i + 1))
    } else if transition_line_ok(lines[i]) {
        match parse_transitions_at(lines, i + 1) {
            Option::Some((rest, j)) => Option::Some(
                (seq![transition_line_record(lines[i])] + rest, j),
            ),
            Option::None => Option::None,
        }
    } else {
        Option::None
    }
}

/// What a whole map file denotes: header names and the two record sections,
/// or nothing when the file is malformed. The version and section marker
/// lines other than the end markers are present but not inspected.
pub open spec fn parse_map_spec(s: Seq<u8>) -> Option<
    (Seq<u8>, Seq<u8>, Seq<u8>, Seq<ObjectRecord>, Seq<TransitionRecord>),
> {
    let lines = split_bytes(s, 10);
    if lines.len() < 8 {
        Option::None
    } else {
        match parse_objects_at(lines, 7) {
            Option::Some((objects, j)) => {
                match parse_transitions_at(lines, j + 1) {
                    Option::Some((transitions, _k)) => Option::Some(
                        (lines[2], lines[3], lines[4], objects, transitions),
                    ),
                    Option::None => Option::None,
                }
            },
            Option::None => Option::None,
        }
    }
}

fn parse_objects_lines(lines: &Vec<Vec<u8>>, i: usize) -> (r: Option<(Vec<ObjectRecord>, usize)>)
    requires
        i <= lines@.len(),
    ensures
        ({
            let views = lines@.map_values(|l: Vec<u8>| l@);
            match r {
                Some((recs, j)) => parse_objects_at(views, i as int) == Option::Some(
                    (recs@, j as int),
                ) && i < j <= lines@.len(),
                None => parse_objects_at(views, i as int) is None,
            }
        }),
    decreases lines@.len() - i,
{
    let ghost views = lines@.map_values(|l: Vec<u8>| l@);
    if i >= lines.len() {
        return None;
    }
    proof {
        assert(views[i as int] == lines@[i as int]@);
    }
    let end = lit_end_objects_line();
    if bytes_eq(lines[i].as_slice(), end.as_slice()) {
        proof {
            assert(views[i as int] == lit_end_objects());
        }
        return Some((Vec::new(), i + 1));
    }
    match parse_object_line(lines[i].as_slice()) {
        Some(rec) => {
            match parse_objects_lines(lines, i + 1) {
                Some((mut rest, j)) => {
                    rest.insert(0, rec);
                    proof {
                        assert(rest@ =~= seq![object_line_record(views[i as int])]
                            + rest@.drop_first());
                    }
                    Some((rest, j))
                },
                None => None,
            }
        },
        None => None,
    }
}

fn parse_transitions_lines(lines: &Vec<Vec<u8>>, i: usize) -> (r: Option<
    (Vec<TransitionRecord>, usize),
>)
    requires
        i <= lines@.len(),
    ensures
        ({
            let views = lines@.map_values(|l: Vec<u8>| l@);
            match r {
                Some((recs, j)) => parse_transitions_at(views, i as int) == Option::Some(
                    (recs@, j as int),
                ) && i < j <= lines@.len(),
                None => parse_transitions_at(views, i as int) is None,
            }
        }),
    decreases lines@.len() - i,
{
    let ghost views = lines@.map_values(|l: Vec<u8>| l@);
    if i >= lines.len() {
        return None;
    }
    proof {
        assert(views[i as int] == lines@[i as int]@);
    }
    let end = lit_end_transitions_line();
    if bytes_eq(lines[i].as_slice(), end.as_slice()) {
        proof {
            assert(views[i as int] == lit_end_transitions());
        }
        return Some((Vec::new(), i + 1));
    }
    match parse_transition_line(lines[i].as_slice()) {
        Some(rec) => {
            match parse_transitions_lines(lines, i + 1) {
                Some((mut rest, j)) => {
                    rest.insert(0, rec);
                    proof {
                        assert(rest@ =~= seq![transition_line_record(views[i as int])]
                            + rest@.drop_first());
                    }
                    Some((rest, j))
                },
                None => None,
            }
        },
        None => None,
    }
}

/// Reads a map file back into plain values; `None` exactly on a malformed
/// file. Loading is all-or-nothing, as a broken map cannot be half loaded.
pub fn parse_map(data: &[u8]) -> (r: Option<MapData>)
    ensures
        match r {
            Some(d) => parse_map_spec(data@) == Option::Some(
                (d.name@, d.map_image_name@, d.backdrop_image_name@, d.objects@, d.transitions@),
            ) && d.wf(),
            None => parse_map_spec(data@) is None,
        },
{
    let lines = split_fields(data, 10);
    let ghost views = lines@.map_values(|l: Vec<u8>| l@);
    if lines.len() < 8 {
        return None;
    }
    let (objects, j) = match parse_objects_lines(&lines, 7) {
        Some(p) => p,
        None => {
            return None;
        },
    };
    if j >= lines.len() {
        proof {
            assert(parse_transitions_at(views, j + 1) is None);
        }
        return None;
    }
    let (transitions, _k) = match parse_transitions_lines(&lines, j + 1) {
        Some(p) => p,
        None => {
            return None;
        },
    };
    proof {
        assert(views[2] == lines@[2]@ && views[3] == lines@[3]@ && views[4] == lines@[4]@);
        lemma_split_no_newline(data@, 2);
        lemma_split_no_newline(data@, 3);
        lemma_split_no_newline(data@, 4);
        lemma_parse_objects_records_ok(views, 7);
        lemma_parse_transitions_records_ok(views, j + 1);
    }
    Some(
        MapData {
            name: vstd::slice::slice_to_vec(lines[2].as_slice()),
            map_image_name: vstd::slice::slice_to_vec(lines[3].as_slice()),
            backdrop_image_name: vstd::slice::slice_to_vec(lines[4].as_slice()),
            objects,
            transitions,
        },
    )
}

/// A field produced by splitting at newlines holds no newline.
proof fn lemma_split_no_newline(s: Seq<u8>, k: int)
    requires
        0 <= k < split_bytes(s, 10).len(),
    ensures
        line_text_ok(split_bytes(s, 10)[k]),
{
    lemma_split_fields_no_sep(s, 10, 0, k);
}

/// No field of a split holds the separator.
proof fn lemma_split_fields_no_sep(s: Seq<u8>, sep: u8, i: int, k: int)
    requires
        0 <= i <= s.len(),
        0 <= k < crate::textfmt::split_from(s, sep, i).len(),
    ensures
        forall|t: int|
            0 <= t < crate::textfmt::split_from(s, sep, i)[k].len() ==> (
            #[trigger] crate::textfmt::split_from(s, sep, i)[k][t]) != sep,
    decreases s.len() - i,
{
    let j = crate::textfmt::sep_from(s, sep, i);
    crate::textfmt::lemma_sep_from_props(s, sep, i);
    if j >= s.len() {
        assert(crate::textfmt::split_from(s, sep, i)[0] == s.subrange(i, s.len() as int));
    } else {
        if k == 0 {
            assert(crate::textfmt::split_from(s, sep, i)[0] == s.subrange(i, j));
        } else {
            assert(crate::textfmt::split_from(s, sep, i)[k] == crate::textfmt::split_from(
                s,
                sep,
                j + 1,
            )[k - 1]);
            lemma_split_fields_no_sep(s, sep, j + 1, k - 1);
        }
    }
}

/// Records coming out of a successful object-section parse are well formed.
proof fn lemma_parse_objects_records_ok(lines: Seq<Seq<u8>>, i: int)
    ensures
        match parse_objects_at(lines, i) {
            Option::Some((recs, j)) => forall|t: int|
                0 <= t < recs.len() ==> object_record_ok(#[trigger] recs[t]),
            Option::None => true,
        },
    decreases lines.len() - i,
{
    if 0 <= i < lines.len() && lines[i] != lit_end_objects() && object_line_ok(lines[i]) {
        lemma_parse_objects_records_ok(lines, i + 1);
        match parse_objects_at(lines, i + 1) {
            Option::Some((rest, j)) => {
                let recs = seq![object_line_record(lines[i])] + rest;
                assert forall|t: int| 0 <= t < recs.len() implies object_record_ok(
                    #[trigger] recs[t],
                ) by {
                    if t == 0 {
                        assert(recs[0] == object_line_record(lines[i]));
                    } else {
                        assert(recs[t] == rest[t - 1]);
                    }
                }
            },
            Option::None => {},
        }
    }
}

/// Records coming out of a successful transition-section parse are well
/// formed.
proof fn lemma_parse_transitions_records_ok(lines: Seq<Seq<u8>>, i: int)
    ensures
        match parse_transitions_at(lines, i) {
            Option::Some((recs, j)) => forall|t: int|
                0 <= t < recs.len() ==> transition_record_ok(#[trigger] recs[t]),
            Option::None => true,
        },
    decreases lines.len() - i,
{
    if 0 <= i < lines.len() && lines[i] != lit_end_transitions() && transition_line_ok(lines[i]) {
        lemma_parse_transitions_records_ok(lines, i + 1);
        match parse_transitions_at(lines, i + 1) {
            Option::Some((rest, j)) => {
                let recs = seq![transition_line_record(lines[i])] + rest;
                assert forall|t: int| 0 <= t < recs.len() implies transition_record_ok(
                    #[trigger] recs[t],
                ) by {
                    if t == 0 {
                        assert(recs[0] == transition_line_record(lines[i]));
                    } else {
                        assert(recs[t] == rest[t - 1]);
                    }
                }
            },
            Option::None => {},
        }
    }
}

/// The marker `v10` holds no newline.
proof fn lit_version_no_newline()
    ensures
        line_text_ok(lit_version()),
{
    assert forall|k: int| 0 <= k < lit_version().len() implies (#[trigger] lit_version()[k]) != 10 by {
        let s = lit_version();
        assert(s.len() == 3);
        assert(s[k] != 10) by {
                if k == 0 { assert(lit_version()[0] == 118u8); }
                if k == 1 { assert(lit_version()[1] == 49u8); }
                if k == 2 { assert(lit_version()[2] == 48u8); }
        };
    }
}

/// The marker `begin map header` holds no newline.
proof fn lit_begin_header_no_newline()
    ensures
        line_text_ok(lit_begin_header()),
{
    assert forall|k: int| 0 <= k < lit_begin_header().len() implies (#[trigger] lit_begin_header()[k]) != 10 by {
        let s = lit_begin_header();
        assert(s.len() == 16);
        assert(s[k] != 10) by {
                if k == 0 { assert(lit_begin_header()[0] == 98u8); }
                if k == 1 { assert(lit_begin_header()[1] == 101u8); }
                if k == 2 { assert(lit_begin_header()[2] == 103u8); }
                if k == 3 { assert(lit_begin_header()[3] == 105u8); }
                if k == 4 { assert(lit_begin_header()[4] == 110u8); }
                if k == 5 { assert(lit_begin_header()[5] == 32u8); }
                if k == 6 { assert(lit_begin_header()[6] == 109u8); }
                if k == 7 { assert(lit_begin_header()[7] == 97u8); }
                if k == 8 { assert(lit_begin_header()[8] == 112u8); }
                if k == 9 { assert(lit_begin_header()[9] == 32u8); }
                if k == 10 { assert(lit_begin_header()[10] == 104u8); }
                if k == 11 { assert(lit_begin_header()[11] == 101u8); }
                if k == 12 { assert(lit_begin_header()[12] == 97u8); }
                if k == 13 { assert(lit_begin_header()[13] == 100u8); }
                if k == 14 { assert(lit_begin_header()[14] == 101u8); }
                if k == 15 { assert(lit_begin_header()[15] == 114u8); }
        };
    }
}

/// The marker `end map header` holds no newline.
proof fn lit_end_header_no_newline()
    ensures
        line_text_ok(lit_end_header()),
{
    assert forall|k: int| 0 <= k < lit_end_header().len() implies (#[trigger] lit_end_header()[k]) != 10 by {
        let s = lit_end_header();
        assert(s.len() == 14);
        assert(s[k] != 10) by {
                if k == 0 { assert(lit_end_header()[0] == 101u8); }
                if k == 1 { assert(lit_end_header()[1] == 110u8); }
                if k == 2 { assert(lit_end_header()[2] == 100u8); }
                if k == 3 { assert(lit_end_header()[3] == 32u8); }
                if k == 4 { assert(lit_end_header()[4] == 109u8); }
                if k == 5 { assert(lit_end_header()[5] == 97u8); }
                if k == 6 { assert(lit_end_header()[6] == 112u8); }
                if k == 7 { assert(lit_end_header()[7] == 32u8); }
                if k == 8 { assert(lit_end_header()[8] == 104u8); }
                if k == 9 { assert(lit_end_header()[9] == 101u8); }
                if k == 10 { assert(lit_end_header()[10] == 97u8); }
                if k == 11 { assert(lit_end_header()[11] == 100u8); }
                if k == 12 { assert(lit_end_header()[12] == 101u8); }
                if k == 13 { assert(lit_end_header()[13] == 114u8); }
        };
    }
}

/// The marker `begin map objects` holds no newline.
proof fn lit_begin_objects_no_newline()
    ensures
        line_text_ok(lit_begin_objects()),
{
    assert forall|k: int| 0 <= k < lit_begin_objects().len() implies (#[trigger] lit_begin_objects()[k]) != 10 by {
        let s = lit_begin_objects();
        assert(s.len() == 17);
        assert(s[k] != 10) by {
                if k == 0 { assert(lit_begin_objects()[0] == 98u8); }
                if k == 1 { assert(lit_begin_objects()[1] == 101u8); }
                if k == 2 { assert(lit_begin_objects()[2] == 103u8); }
                if k == 3 { assert(lit_begin_objects()[3] == 105u8); }
                if k == 4 { assert(lit_begin_objects()[4] == 110u8); }
                if k == 5 { assert(lit_begin_objects()[5] == 32u8); }
                if k == 6 { assert(lit_begin_objects()[6] == 109u8); }
                if k == 7 { assert(lit_begin_objects()[7] == 97u8); }
                if k == 8 { assert(lit_begin_objects()[8] == 112u8); }
                if k == 9 { assert(lit_begin_objects()[9] == 32u8); }
                if k == 10 { assert(lit_begin_objects()[10] == 111u8); }
                if k == 11 { assert(lit_begin_objects()[11] == 98u8); }
                if k == 12 { assert(lit_begin_objects()[12] == 106u8); }
                if k == 13 { assert(lit_begin_objects()[13] == 101u8); }
                if k == 14 { assert(lit_begin_objects()[14] == 99u8); }
                if k == 15 { assert(lit_begin_objects()[15] == 116u8); }
                if k == 16 { assert(lit_begin_objects()[16] == 115u8); }
        };
    }
}

/// The marker `end map objects` holds no newline.
proof fn lit_end_objects_no_newline()
    ensures
        line_text_ok(lit_end_objects()),
{
    assert forall|k: int| 0 <= k < lit_end_objects().len() implies (#[trigger] lit_end_objects()[k]) != 10 by {
        let s = lit_end_objects();
        assert(s.len() == 15);
        assert(s[k] != 10) by {
                if k == 0 { assert(lit_end_objects()[0] == 101u8); }
                if k == 1 { assert(lit_end_objects()[1] == 110u8); }
                if k == 2 { assert(lit_end_objects()[2] == 100u8); }
                if k == 3 { assert(lit_end_objects()[3] == 32u8); }
                if k == 4 { assert(lit_end_objects()[4] == 109u8); }
                if k == 5 { assert(lit_end_objects()[5] == 97u8); }
                if k == 6 { assert(lit_end_objects()[6] == 112u8); }
                if k == 7 { assert(lit_end_objects()[7] == 32u8); }
                if k == 8 { assert(lit_end_objects()[8] == 111u8); }
                if k == 9 { assert(lit_end_objects()[9] == 98u8); }
                if k == 10 { assert(lit_end_objects()[10] == 106u8); }
                if k == 11 { assert(lit_end_objects()[11] == 101u8); }
                if k == 12 { assert(lit_end_objects()[12] == 99u8); }
                if k == 13 { assert(lit_end_objects()[13] == 116u8); }
                if k == 14 { assert(lit_end_objects()[14] == 115u8); }
        };
    }
}

/// The marker `begin map transitions` holds no newline.
proof fn lit_begin_transitions_no_newline()
    ensures
        line_text_ok(lit_begin_transitions()),
{
    assert forall|k: int| 0 <= k < lit_begin_transitions().len() implies (#[trigger] lit_begin_transitions()[k]) != 10 by {
        let s = lit_begin_transitions();
        assert(s.len() == 21);
        assert(s[k] != 10) by {
                if k == 0 { assert(lit_begin_transitions()[0] == 98u8); }
                if k == 1 { assert(lit_begin_transitions()[1] == 101u8); }
                if k == 2 { assert(lit_begin_transitions()[2] == 103u8); }
                if k == 3 { assert(lit_begin_transitions()[3] == 105u8); }
                if k == 4 { assert(lit_begin_transitions()[4] == 110u8); }
                if k == 5 { assert(lit_begin_transitions()[5] == 32u8); }
                if k == 6 { assert(lit_begin_transitions()[6] == 109u8); }
                if k == 7 { assert(lit_begin_transitions()[7] == 97u8); }
                if k == 8 { assert(lit_begin_transitions()[8] == 112u8); }
                if k == 9 { assert(lit_begin_transitions()[9] == 32u8); }
                if k == 10 { assert(lit_begin_transitions()[10] == 116u8); }
                if k == 11 { assert(lit_begin_transitions()[11] == 114u8); }
                if k == 12 { assert(lit_begin_transitions()[12] == 97u8); }
                if k == 13 { assert(lit_begin_transitions()[13] == 110u8); }
                if k == 14 { assert(lit_begin_transitions()[14] == 115u8); }
                if k == 15 { assert(lit_begin_transitions()[15] == 105u8); }
                if k == 16 { assert(lit_begin_transitions()[16] == 116u8); }
                if k == 17 { assert(lit_begin_transitions()[17] == 105u8); }
                if k == 18 { assert(lit_begin_transitions()[18] == 111u8); }
                if k == 19 { assert(lit_begin_transitions()[19] == 110u8); }
                if k == 20 { assert(lit_begin_transitions()[20] == 115u8); }
        };
    }
}

/// The marker `end map transitions` holds no newline.
proof fn lit_end_transitions_no_newline()
    ensures
        line_text_ok(lit_end_transitions()),
{
    assert forall|k: int| 0 <= k < lit_end_transitions().len() implies (#[trigger] lit_end_transitions()[k]) != 10 by {
        let s = lit_end_transitions();
        assert(s.len() == 19);
        assert(s[k] != 10) by {
                if k == 0 { assert(lit_end_transitions()[0] == 101u8); }
                if k == 1 { assert(lit_end_transitions()[1] == 110u8); }
                if k == 2 { assert(lit_end_transitions()[2] == 100u8); }
                if k == 3 { assert(lit_end_transitions()[3] == 32u8); }
                if k == 4 { assert(lit_end_transitions()[4] == 109u8); }
                if k == 5 { assert(lit_end_transitions()[5] == 97u8); }
                if k == 6 { assert(lit_end_transitions()[6] == 112u8); }
                if k == 7 { assert(lit_end_transitions()[7] == 32u8); }
                if k == 8 { assert(lit_end_transitions()[8] == 116u8); }
                if k == 9 { assert(lit_end_transitions()[9] == 114u8); }
                if k == 10 { assert(lit_end_transitions()[10] == 97u8); }
                if k == 11 { assert(lit_end_transitions()[11] == 110u8); }
                if k == 12 { assert(lit_end_transitions()[12] == 115u8); }
                if k == 13 { assert(lit_end_transitions()[13] == 105u8); }
                if k == 14 { assert(lit_end_transitions()[14] == 116u8); }
                if k == 15 { assert(lit_end_transitions()[15] == 105u8); }
                if k == 16 { assert(lit_end_transitions()[16] == 111u8); }
                if k == 17 { assert(lit_end_transitions()[17] == 110u8); }
                if k == 18 { assert(lit_end_transitions()[18] == 115u8); }
        };
    }
}

/// A join holds no byte that neither the separator nor any field holds.
proof fn lemma_join_bytes_free(fs: Seq<Seq<u8>>, sep: u8, b: u8)
    requires
        sep != b,
        forall|i: int, k: int| 0 <= i < fs.len() && 0 <= k < fs[i].len() ==> (#[trigger] fs[i][k]) != b,
    ensures
        forall|k: int| 0 <= k < join_bytes(fs, sep).len() ==> (#[trigger] join_bytes(fs, sep)[k]) != b,
    decreases fs.len(),
{
    if fs.len() <= 1 {
        if fs.len() == 1 {
            assert(forall|k: int|
                0 <= k < join_bytes(fs, sep).len() ==> join_bytes(fs, sep)[k] == (
                #[trigger] fs[0][k]));
        }
    } else {
        let rest = fs.drop_first();
        assert(forall|i: int, k: int|
            0 <= i < rest.len() && 0 <= k < rest[i].len() ==> (#[trigger] rest[i][k]) != b);
        lemma_join_bytes_free(rest, sep, b);
        let head = fs[0];
        let tail = join_bytes(rest, sep);
        assert(join_bytes(fs, sep) == head + seq![sep] + tail);
        assert forall|k: int| 0 <= k < join_bytes(fs, sep).len() implies (
        #[trigger] join_bytes(fs, sep)[k]) != b by {
            if k < head.len() {
                assert(join_bytes(fs, sep)[k] == fs[0][k]);
            } else if k == head.len() {
                assert(join_bytes(fs, sep)[k] == sep);
            } else {
                assert(join_bytes(fs, sep)[k] == tail[k - head.len() - 1]);
            }
        }
    }
}

/// An object line holds no newline and starts with a digit.
proof fn lemma_object_line_shape(r: ObjectRecord)
    requires
        object_record_ok(r),
    ensures
        line_text_ok(object_line(r)),
        object_line(r).len() > 0,
        crate::textfmt::is_digit(object_line(r)[0]),
{
    let fields = seq![
        int_rep(r.layer as int),
        int_rep(r.tile_id as int),
        int_rep(r.frames as int),
        int_rep(r.x as int),
        int_rep(r.y as int),
        int_rep(r.height as int),
        int_rep(r.scale as int),
        color_field(r.color),
        seq![blend_key(r.blend)],
    ];
    lemma_int_rep_bytes(r.layer as int);
    lemma_int_rep_bytes(r.tile_id as int);
    lemma_int_rep_bytes(r.frames as int);
    lemma_int_rep_bytes(r.x as int);
    lemma_int_rep_bytes(r.y as int);
    lemma_int_rep_bytes(r.height as int);
    lemma_int_rep_bytes(r.scale as int);
    lemma_color_field_bytes(r.color);
    assert forall|i: int, k: int|
        0 <= i < fields.len() && 0 <= k < fields[i].len() implies (#[trigger] fields[i][k])
        != 10 by {
        if i < 7 {
            assert(fields[i][k] == 45 || crate::textfmt::is_digit(fields[i][k]));
        } else if i == 7 {
            assert(fields[7][k] == 32 || crate::textfmt::is_digit(fields[7][k]));
        } else {
            assert(fields[8][k] == blend_key(r.blend));
        }
    }
    lemma_join_bytes_free(fields, 44, 10);
    lemma_join_unfold_object(r);
    crate::textfmt::lemma_nat_rep_first_digit_pub(r.layer as int);
    assert(int_rep(r.layer as int).len() >= 1);
    assert(object_line(r)[0] == int_rep(r.layer as int)[0]);
}

/// A transition line holds no newline and starts with a digit or a minus
/// sign.
proof fn lemma_transition_line_shape(r: TransitionRecord)
    requires
        transition_record_ok(r),
    ensures
        line_text_ok(transition_line(r)),
        transition_line(r).len() > 0,
        crate::textfmt::is_digit(transition_line(r)[0]) || transition_line(r)[0] == 45,
{
    let fields = seq![int_rep(r.x as int), int_rep(r.y as int), int_rep(r.radius as int), int_rep(
        r.to as int,
    )];
    lemma_int_rep_bytes(r.x as int);
    lemma_int_rep_bytes(r.y as int);
    lemma_int_rep_bytes(r.radius as int);
    lemma_int_rep_bytes(r.to as int);
    assert forall|i: int, k: int|
        0 <= i < fields.len() && 0 <= k < fields[i].len() implies (#[trigger] fields[i][k])
        != 10 by {
        assert(fields[i][k] == 45 || crate::textfmt::is_digit(fields[i][k]));
    }
    lemma_join_bytes_free(fields, 44, 10);
    lemma_join_unfold_transition(r);
    assert(int_rep(r.x as int).len() >= 1) by {
        crate::textfmt::lemma_nat_rep_first_digit_pub(if r.x >= 0 {
            r.x as int
        } else {
            -(r.x as int)
        });
    }
    assert(transition_line(r)[0] == int_rep(r.x as int)[0]);
    assert(int_rep(r.x as int)[0] == 45 || crate::textfmt::is_digit(int_rep(r.x as int)[0])) by {
        lemma_int_rep_bytes(r.x as int);
    }
}

/// Object lines parse until exactly the end marker: from position `base + k`
/// the remaining records come back unchanged.
proof fn lemma_parse_objects_section(lines: Seq<Seq<u8>>, base: int, objs: Seq<ObjectRecord>, k: int)
    requires
        0 <= k <= objs.len(),
        0 <= base,
        base + objs.len() < lines.len(),
        forall|t: int|
            0 <= t < objs.len() ==> lines[base + t] == object_line(#[trigger] objs[t])
                && object_record_ok(objs[t]),
        lines[base + objs.len()] == lit_end_objects(),
    ensures
        parse_objects_at(lines, base + k) == Option::Some(
            (objs.skip(k), base + objs.len() + 1),
        ),
    decreases objs.len() - k,
{
    if k == objs.len() {
        assert(objs.skip(k) =~= Seq::<ObjectRecord>::empty());
    } else {
        lemma_object_line_shape(objs[k]);
        assert(lines[base + k] == object_line(objs[k]));
        assert(lines[base + k] != lit_end_objects()) by {
            lit_end_objects_no_newline();
            assert(lit_end_objects()[0] == 101);
            assert(object_line(objs[k])[0] != 101);
        }
        lemma_object_line_roundtrip(objs[k]);
        lemma_parse_objects_section(lines, base, objs, k + 1);
        assert(seq![object_line_record(lines[base + k])] + objs.skip(k + 1) =~= objs.skip(k));
    }
}

/// Transition lines parse until exactly the end marker.
proof fn lemma_parse_transitions_section(
    lines: Seq<Seq<u8>>,
    base: int,
    trans: Seq<TransitionRecord>,
    k: int,
)
    requires
        0 <= k <= trans.len(),
        0 <= base,
        base + trans.len() < lines.len(),
        forall|t: int|
            0 <= t < trans.len() ==> lines[base + t] == transition_line(#[trigger] trans[t])
                && transition_record_ok(trans[t]),
        lines[base + trans.len()] == lit_end_transitions(),
    ensures
        parse_transitions_at(lines, base + k) == Option::Some(
            (trans.skip(k), base + trans.len() + 1),
        ),
    decreases trans.len() - k,
{
    if k == trans.len() {
        assert(trans.skip(k) =~= Seq::<TransitionRecord>::empty());
    } else {
        lemma_transition_line_shape(trans[k]);
        assert(lines[base + k] != lit_end_transitions()) by {
            lit_end_transitions_no_newline();
            assert(lit_end_transitions()[0] == 101);
            assert(transition_line(trans[k])[0] != 101);
        }
        lemma_transition_line_roundtrip(trans[k]);
        lemma_parse_transitions_section(lines, base, trans, k + 1);
        assert(seq![transition_line_record(lines[base + k])] + trans.skip(k + 1) =~= trans.skip(
            k,
        ));
    }
}

/// Law: a persisted map file reads back exactly. Serializing well-formed map
/// data and parsing the text returns the same header names and the same
/// object and transition records, so every numeric field survives the round
/// trip.
pub proof fn lemma_map_text_roundtrip(d: MapData)
    requires
        d.wf(),
    ensures
        parse_map_spec(map_text(d)) == Option::Some(
            (d.name@, d.map_image_name@, d.backdrop_image_name@, d.objects@, d.transitions@),
        ),
{
    let ls = map_lines(d.name@, d.map_image_name@, d.backdrop_image_name@, d.objects@, d.transitions@);
    let obj_lines = d.objects@.map_values(|r: ObjectRecord| object_line(r));
    let trans_lines = d.transitions@.map_values(|r: TransitionRecord| transition_line(r));
    lit_version_no_newline();
    lit_begin_header_no_newline();
    lit_end_header_no_newline();
    lit_begin_objects_no_newline();
    lit_end_objects_no_newline();
    lit_begin_transitions_no_newline();
    lit_end_transitions_no_newline();
    assert(ls.len() == 10 + d.objects@.len() + d.transitions@.len());
    assert forall|i: int, k: int|
        0 <= i < ls.len() && 0 <= k < ls[i].len() implies (#[trigger] ls[i][k]) != 10 by {
        let no = d.objects@.len() as int;
        let nt = d.transitions@.len() as int;
        if i < 7 {
            if i == 2 {
                assert(ls[i] == d.name@);
            } else if i == 3 {
                assert(ls[i] == d.map_image_name@);
            } else if i == 4 {
                assert(ls[i] == d.backdrop_image_name@);
            }
        } else if i < 7 + no {
            assert(ls[i] == obj_lines[i - 7]);
            assert(obj_lines[i - 7] == object_line(d.objects@[i - 7]));
            lemma_object_line_shape(d.objects@[i - 7]);
        } else if i < 9 + no {
        } else if i < 9 + no + nt {
            assert(ls[i] == trans_lines[i - 9 - no]);
            assert(trans_lines[i - 9 - no] == transition_line(d.transitions@[i - 9 - no]));
            lemma_transition_line_shape(d.transitions@[i - 9 - no]);
        } else {
            assert(ls[i] == lit_end_transitions());
        }
    }
    crate::textfmt::lemma_split_join(ls, 10);
    assert(split_bytes(map_text(d), 10) == ls);
    let no = d.objects@.len() as int;
    let nt = d.transitions@.len() as int;
    assert forall|t: int| 0 <= t < no implies ls[7 + t] == object_line(
        #[trigger] d.objects@[t],
    ) && object_record_ok(d.objects@[t]) by {
        assert(ls[7 + t] == obj_lines[t]);
    }
    assert(ls[7 + no] == lit_end_objects());
    lemma_parse_objects_section(ls, 7, d.objects@, 0);
    assert(d.objects@.skip(0) =~= d.objects@);
    assert(parse_objects_at(ls, 7) == Option::Some((d.objects@, 8 + no)));
    assert forall|t: int| 0 <= t < nt implies ls[9 + no + t] == transition_line(
        #[trigger] d.transitions@[t],
    ) && transition_record_ok(d.transitions@[t]) by {
        assert(ls[9 + no + t] == trans_lines[t]);
    }
    assert(ls[9 + no + nt] == lit_end_transitions());
    lemma_parse_transitions_section(ls, 9 + no, d.transitions@, 0);
    assert(d.transitions@.skip(0) =~= d.transitions@);
    assert(ls[2] == d.name@ && ls[3] == d.map_image_name@ && ls[4] == d.backdrop_image_name@);
}

} // verus!
