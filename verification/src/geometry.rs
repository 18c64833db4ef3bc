//! Rectangles, and how windows lie on screens.
use vstd::prelude::*;

use crate::number::Number;

verus! {

/// A point in screen coordinates.
#[derive(Clone, Copy, Debug, PartialEq, Eq, Structural)]
pub struct Point {
    pub x: Number,
    pub y: Number,
}

/// The size of a window or a screen.
#[derive(Clone, Copy, Debug, PartialEq, Eq, Structural)]
pub struct Size {
    pub width: Number,
    pub height: Number,
}

/// A rectangle in screen coordinates.
#[derive(Clone, Copy, Debug, PartialEq, Eq, Structural)]
pub struct Rect {
    pub origin: Point,
    pub size: Size,
}

impl Point {
    pub open spec fn same(self, other: Point) -> bool {
        self.x.same(other.x) && self.y.same(other.y)
    }

    pub fn same_point(self, other: Point) -> (b: bool)
        ensures
            b == self.same(other),
    {
        self.x.same_value(other.x) && self.y.same_value(other.y)
    }
}

impl Size {
    pub open spec fn same(self, other: Size) -> bool {
        self.width.same(other.width) && self.height.same(other.height)
    }

    pub fn same_size(self, other: Size) -> (b: bool)
        ensures
            b == self.same(other),
    {
        self.width.same_value(other.width) && self.height.same_value(other.height)
    }
}

impl Rect {
    pub open spec fn same(self, other: Rect) -> bool {
        self.origin.same(other.origin) && self.size.same(other.size)
    }

    /// Whether the rectangles have equal coordinates.
    pub fn same_rect(self, other: Rect) -> (b: bool)
        ensures
            b == self.same(other),
    {
        self.origin.same_point(other.origin) && self.size.same_size(other.size)
    }
}

/// A converter between the coordinates of the screens, by its number in a table
/// of the caller.
#[derive(Clone, Copy, Debug, PartialEq, Eq, Structural)]
pub struct CoordinateConverter(pub u64);

/// How a window frame lies on a screen.
#[derive(Clone, Copy, Debug, PartialEq, Eq, Structural)]
pub struct Overlap {
    /// The area of the intersection.
    pub area: Number,
    /// Whether the intersection has both a width and a height.
    pub visible: bool,
    /// Whether the middle of the frame is on the screen.
    pub holds_middle: bool,
}

impl Overlap {
    /// The frame is nowhere on the screen.
    pub open spec fn none() -> Overlap {
        Overlap { area: Number { bits: 0 }, visible: false, holds_middle: false }
    }

    /// The intersection has an area.
    pub open spec fn positive(self) -> bool {
        Number { bits: 0 }.less(self.area)
    }

    /// Whether the intersection has an area.
    pub fn has_area(self) -> (b: bool)
        ensures
            b == self.positive(),
    {
        Number { bits: 0 }.is_less(self.area)
    }
}

/// The overlap of one screen and one frame.
#[derive(Clone, Copy, Debug, PartialEq, Eq, Structural)]
pub struct Measured {
    pub screen: Rect,
    pub frame: Rect,
    pub overlap: Overlap,
}

/// The overlap last measured for a screen and a frame. A pair that was not
/// measured does not overlap.
pub open spec fn overlap_of(measured: Seq<Measured>, screen: Rect, frame: Rect) -> Overlap
    decreases measured.len(),
{
    if measured.len() == 0 {
        Overlap::none()
    } else if measured.last().screen == screen && measured.last().frame == frame {
        measured.last().overlap
    } else {
        overlap_of(measured.drop_last(), screen, frame)
    }
}

/// The overlaps that were measured of screens and frames.
pub struct Measurements {
    measured: Vec<Measured>,
}

impl View for Measurements {
    type V = Seq<Measured>;

    closed spec fn view(&self) -> Seq<Measured> {
        self.measured@
    }
}

impl Measurements {
    pub fn new() -> (m: Measurements)
        ensures
            m@ == Seq::<Measured>::empty(),
    {
        Measurements { measured: Vec::new() }
    }

    pub fn record(&mut self, screen: Rect, frame: Rect, overlap: Overlap)
        ensures
            final(self)@ == old(self)@.push(Measured { screen, frame, overlap }),
    {
        self.measured.push(Measured { screen, frame, overlap });
    }

    pub fn overlap(&self, screen: Rect, frame: Rect) -> (o: Overlap)
        ensures
            o == overlap_of(self@, screen, frame),
    {
        let mut i: usize = self.measured.len();
        proof {
            assert(self@.take(i as int) =~= self@);
        }
        while i > 0
            invariant
                i <= self.measured.len(),
                overlap_of(self@, screen, frame) == overlap_of(self@.take(i as int), screen, frame),
            decreases i,
        {
            i -= 1;
            let m = self.measured[i];
            proof {
                let now = self@.take(i as int + 1);
                assert(now.last() == m);
                assert(now.drop_last() =~= self@.take(i as int));
            }
            if m.screen == screen && m.frame == frame {
                return m.overlap;
            }
        }
        Overlap { area: Number { bits: 0 }, visible: false, holds_middle: false }
    }
}

/// The overlap that was measured last counts for its screen and frame, and for
/// no other pair. What was never measured does not overlap.
pub proof fn last_measurement_counts(
    measured: Seq<Measured>,
    screen: Rect,
    frame: Rect,
    overlap: Overlap,
    other_screen: Rect,
    other_frame: Rect,
)
    ensures
        ({
            let after = measured.push(Measured { screen, frame, overlap });
            &&& overlap_of(after, screen, frame) == overlap
            &&& other_screen != screen || other_frame != frame ==> overlap_of(after, other_screen, other_frame)
                == overlap_of(measured, other_screen, other_frame)
            &&& overlap_of(Seq::empty(), screen, frame) == (Overlap {
                area: Number { bits: 0 },
                visible: false,
                holds_middle: false,
            })
        }),
{
    let after = measured.push(Measured { screen, frame, overlap });
    assert(after.drop_last() =~= measured);
}

/// Rectangles are the same if each of their coordinates is.
pub proof fn same_rectangles_have_the_same_coordinates(a: Rect, b: Rect)
    ensures
        a.same(b) <==> {
            &&& a.origin.x.same(b.origin.x)
            &&& a.origin.y.same(b.origin.y)
            &&& a.size.width.same(b.size.width)
            &&& a.size.height.same(b.size.height)
        },
        a.size.same(b.size) <==> a.size.width.same(b.size.width) && a.size.height.same(b.size.height),
{
}

} // verus!
