//! Where things are in the window, in logical pixels.

use vstd::prelude::*;

verus! {

/// The size of the window.
pub const W: u32 = 900;

pub const H: u32 = 644;

#[derive(Clone, Copy, PartialEq, Eq, Structural, Debug)]
pub struct Rect {
    pub x: i32,
    pub y: i32,
    pub w: u32,
    pub h: u32,
}

impl Rect {
    /// Whether a point is inside. The right and the lower edge are outside.
    pub open spec fn holds(self, x: int, y: int) -> bool {
        self.x <= x < self.x + self.w && self.y <= y < self.y + self.h
    }

    pub fn contains_point(&self, x: i32, y: i32) -> (r: bool)
        ensures
            r == self.holds(x as int, y as int),
    {
        let (px, py): (i64, i64) = (x as i64, y as i64);
        self.x as i64 <= px && px < self.x as i64 + self.w as i64 && self.y as i64 <= py && py
            < self.y as i64 + self.h as i64
    }
}

#[verifier::allow_in_spec]
pub fn receiver_card() -> Rect
    returns
        (Rect { x: 24, y: 68, w: 420, h: 320 }),
{
    Rect { x: 24, y: 68, w: 420, h: 320 }
}

#[verifier::allow_in_spec]
pub fn vault_card() -> Rect
    returns
        (Rect { x: 462, y: 68, w: 414, h: 320 }),
{
    Rect { x: 462, y: 68, w: 414, h: 320 }
}

#[verifier::allow_in_spec]
pub fn log_box() -> Rect
    returns
        (Rect { x: 24, y: 404, w: 852, h: 224 }),
{
    Rect { x: 24, y: 404, w: 852, h: 224 }
}

#[verifier::allow_in_spec]
pub fn drop_zone() -> Rect
    returns
        (Rect { x: 478, y: 104, w: 382, h: 56 }),
{
    Rect { x: 478, y: 104, w: 382, h: 56 }
}

#[verifier::allow_in_spec]
pub fn browse_btn() -> Rect
    returns
        (Rect { x: 766, y: 115, w: 82, h: 34 }),
{
    Rect { x: 766, y: 115, w: 82, h: 34 }
}

#[verifier::allow_in_spec]
pub fn segment_bar() -> Rect
    returns
        (Rect { x: 478, y: 176, w: 382, h: 30 }),
{
    Rect { x: 478, y: 176, w: 382, h: 30 }
}

#[verifier::allow_in_spec]
pub fn pass_field() -> Rect
    returns
        (Rect { x: 478, y: 290, w: 326, h: 34 }),
{
    Rect { x: 478, y: 290, w: 326, h: 34 }
}

#[verifier::allow_in_spec]
pub fn eye_btn() -> Rect
    returns
        (Rect { x: 812, y: 290, w: 48, h: 34 }),
{
    Rect { x: 812, y: 290, w: 48, h: 34 }
}

#[verifier::allow_in_spec]
pub fn primary_btn() -> Rect
    returns
        (Rect { x: 478, y: 338, w: 382, h: 34 }),
{
    Rect { x: 478, y: 338, w: 382, h: 34 }
}

#[verifier::allow_in_spec]
pub fn refresh_btn() -> Rect
    returns
        (Rect { x: 40, y: 338, w: 110, h: 34 }),
{
    Rect { x: 40, y: 338, w: 110, h: 34 }
}

/// The parts of the window that react to a click.
pub open spec fn controls() -> Seq<Rect> {
    seq![browse_btn(), segment_bar(), pass_field(), eye_btn(), primary_btn(), refresh_btn()]
}

/// No point belongs to two controls.
pub proof fn law_controls_apart(i: int, j: int, x: int, y: int)
    requires
        0 <= i < controls().len(),
        0 <= j < controls().len(),
        controls()[i].holds(x, y),
        controls()[j].holds(x, y),
    ensures
        i == j,
{
}

/// The segment of the bar that a point at `x` belongs to.
pub open spec fn segment_at(x: int) -> int {
    (x - segment_bar().x) * 3 / segment_bar().w as int
}

/// The segment of the bar at `x`.
pub fn segment(x: i32) -> (i: usize)
    requires
        segment_bar().x <= x < segment_bar().x + segment_bar().w,
    ensures
        i == segment_at(x as int),
        i < 3,
{
    ((x - 478) * 3 / 382) as usize
}

/// Where segment `i` of the bar is drawn.
pub fn segment_rect(i: usize) -> (r: Rect)
    requires
        i < 3,
    ensures
        r == (Rect { x: (478 + 127 * i) as i32, y: 176, w: 127, h: 30 }),
{
    Rect { x: 478 + 127 * i as i32, y: 176, w: 127, h: 30 }
}

/// Where the next device chip goes.
#[derive(Clone, Copy, Debug)]
pub struct ChipRow {
    pub x: i32,
    pub y: i32,
}

impl ChipRow {
    /// A place in one of the two rows.
    pub open spec fn wf(self) -> bool {
        40 <= self.x <= 436 && (self.y == 230 || self.y == 262)
    }

    pub fn new() -> (r: ChipRow)
        ensures
            r.wf(),
            r.x == 40,
            r.y == 230,
    {
        ChipRow { x: 40, y: 230 }
    }

    /// The width of the label of a chip whose text is `w` wide.
    pub open spec fn label_width(w: int) -> int {
        if w < 200 {
            w
        } else {
            200
        }
    }

    /// Places a chip whose text is `w` wide: behind the last one, or in the next row where it does
    /// not fit. There are two rows; a chip that would need a third is not placed.
    pub fn place(&mut self, w: u32) -> (chip: Option<Rect>)
        requires
            old(self).wf(),
        ensures
            ({
                let tw = ChipRow::label_width(w as int);
                let wrap = old(self).x + tw + 26 > 428;
                let x = if wrap {
                    40
                } else {
                    old(self).x as int
                };
                let y = if wrap {
                    old(self).y + 32
                } else {
                    old(self).y as int
                };
                match chip {
                    Some(r) => {
                        &&& y <= 262
                        &&& r == (Rect { x: x as i32, y: y as i32, w: (tw + 26) as u32, h: 24 })
                        &&& is_chip(r)
                        &&& final(self).wf()
                        &&& final(self).x == x + tw + 34
                        &&& final(self).y == y
                    },
                    None => {
                        &&& y > 262
                        &&& final(self).x == x
                        &&& final(self).y == y
                    },
                }
            }),
    {
        let tw: i32 = if w < 200 { w as i32 } else { 200 };
        if self.x + tw + 26 > 428 {
            self.x = 40;
            self.y = self.y + 32;
        }
        if self.y > 262 {
            return None;
        }
        let r: Rect = Rect { x: self.x, y: self.y, w: (tw + 26) as u32, h: 24 };
        self.x = self.x + tw + 34;
        Some(r)
    }
}

/// Whether `chip` is a chip that can have been placed.
pub open spec fn is_chip(chip: Rect) -> bool {
    &&& 40 <= chip.x
    &&& chip.x + chip.w <= 428
    &&& chip.y == 230 || chip.y == 262
    &&& chip.h == 24
}

/// A chip lies inside the receiver card, and covers none of the controls.
pub proof fn law_chips_apart(chip: Rect, i: int, x: int, y: int)
    requires
        is_chip(chip),
        0 <= i < controls().len(),
        chip.holds(x, y),
    ensures
        receiver_card().holds(x, y),
        !controls()[i].holds(x, y),
{
}

/// Where the dashes of a line of `len` pixels start and how long they are: six pixels, four apart.
pub fn dashes(len: u32) -> (v: Vec<(u32, u32)>)
    ensures
        v@.len() == (len + 9) / 10,
        forall|k: int|
            0 <= k < v@.len() ==> (#[trigger] v@[k]).0 == 10 * k && v@[k].1 == if len - 10 * k < 6 {
                len - 10 * k
            } else {
                6
            },
{
    let mut v: Vec<(u32, u32)> = Vec::new();
    let mut at: u64 = 0;
    while at < len as u64
        invariant
            at == 10 * v@.len(),
            at < len + 10,
            forall|k: int|
                0 <= k < v@.len() ==> (#[trigger] v@[k]).0 == 10 * k && v@[k].1 == if len - 10 * k
                    < 6 {
                    len - 10 * k
                } else {
                    6
                },
        decreases len + 10 - at,
    {
        let left: u32 = len - at as u32;
        v.push((at as u32, if left < 6 { left } else { 6 }));
        at = at + 10;
    }
    v
}

/// The bar of modes has three segments of about a third each, from left to right.
pub proof fn law_segments(x: int)
    requires
        478 <= x < 860,
    ensures
        segment_at(x) == if x < 606 {
            0int
        } else if x < 733 {
            1
        } else {
            2
        },
{
}

/// The left and the upper edge of a rectangle belong to it, the right and the lower one do not, and
/// it is as wide and as high as it says.
pub proof fn law_edges(r: Rect, dx: int, dy: int)
    ensures
        r.holds(r.x + dx, r.y + dy) <==> 0 <= dx < r.w && 0 <= dy < r.h,
{
}

/// The text of a chip is cut at 200 pixels.
pub proof fn law_label_width(w: int)
    ensures
        w <= 200 ==> ChipRow::label_width(w) == w,
        w > 200 ==> ChipRow::label_width(w) == 200,
{
}

} // verus!
