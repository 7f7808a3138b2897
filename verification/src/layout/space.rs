//! The room that a view may take, and how views are arranged in it.

use vstd::prelude::*;
use crate::layout::fixed::{Fixed, HALF, LIMIT, ONE};
use crate::layout::rect::{Size, max, min, spec_max, spec_min};

verus! {

/// The direction in which a stack lays out its content.
#[derive(Clone, Copy, Debug, PartialEq, Eq, Structural, Hash)]
pub enum Axis {
    Horizontal,
    Vertical,
}

impl Axis {
    /// The extent along the axis and the extent across it.
    pub open spec fn spec_unpack(self, size: Size) -> (Fixed, Fixed) {
        match self {
            Axis::Horizontal => (size.width, size.height),
            Axis::Vertical => (size.height, size.width),
        }
    }

    /// The size with the given extents along the axis and across it.
    pub open spec fn spec_pack(self, major: Fixed, minor: Fixed) -> Size {
        match self {
            Axis::Horizontal => Size { width: major, height: minor },
            Axis::Vertical => Size { width: minor, height: major },
        }
    }

    /// The extent along the axis and the extent across it.
    #[verifier::when_used_as_spec(spec_unpack)]
    pub fn unpack(self, size: Size) -> (r: (Fixed, Fixed))
        ensures
            r == self.spec_unpack(size),
    {
        match self {
            Axis::Horizontal => (size.width, size.height),
            Axis::Vertical => (size.height, size.width),
        }
    }

    /// The size with the given extents along the axis and across it.
    #[verifier::when_used_as_spec(spec_pack)]
    pub fn pack(self, major: Fixed, minor: Fixed) -> (s: Size)
        ensures
            s == self.spec_pack(major, minor),
    {
        match self {
            Axis::Horizontal => Size { width: major, height: minor },
            Axis::Vertical => Size { width: minor, height: major },
        }
    }
}

/// The least and the greatest size that a view may take. The limit of the
/// scalars stands for no bound at all.
#[derive(Clone, Copy, Debug, PartialEq, Eq, Structural, Hash)]
pub struct Space {
    pub min: Size,
    pub max: Size,
}

/// The scalar between `low` and `high` that is nearest to `v`; `low` where
/// the two cross.
pub open spec fn spec_clamp(v: Fixed, low: Fixed, high: Fixed) -> Fixed {
    spec_max(low, spec_min(v, high))
}

/// Brings a scalar between two others.
#[verifier::when_used_as_spec(spec_clamp)]
pub fn clamp(v: Fixed, low: Fixed, high: Fixed) -> (r: Fixed)
    ensures
        r == spec_clamp(v, low, high),
{
    max(low, min(v, high))
}

impl Space {
    /// Any size at all.
    pub open spec fn spec_unbounded() -> Space {
        Space {
            min: Size { width: Fixed { bits: 0 }, height: Fixed { bits: 0 } },
            max: Size { width: Fixed { bits: LIMIT }, height: Fixed { bits: LIMIT } },
        }
    }

    /// This space, as far as `outer` has room for it: both of its sizes
    /// brought between those of `outer`.
    pub open spec fn spec_constrain(self, outer: Space) -> Space {
        Space {
            min: Size {
                width: spec_clamp(self.min.width, outer.min.width, outer.max.width),
                height: spec_clamp(self.min.height, outer.min.height, outer.max.height),
            },
            max: Size {
                width: spec_clamp(self.max.width, outer.min.width, outer.max.width),
                height: spec_clamp(self.max.height, outer.min.height, outer.max.height),
            },
        }
    }

    /// The size in this space that is nearest to `size`.
    pub open spec fn spec_fit(self, size: Size) -> Size {
        Size {
            width: spec_clamp(size.width, self.min.width, self.max.width),
            height: spec_clamp(size.height, self.min.height, self.max.height),
        }
    }

    /// The space between two sizes.
    pub fn new(min: Size, max: Size) -> (s: Space)
        ensures
            s.min == min,
            s.max == max,
    {
        Space { min, max }
    }

    /// Any size at all.
    pub fn unbounded() -> (s: Space)
        ensures
            s == Space::spec_unbounded(),
    {
        Space {
            min: Size { width: Fixed::zero(), height: Fixed::zero() },
            max: Size { width: Fixed::from_bits(LIMIT), height: Fixed::from_bits(LIMIT) },
        }
    }

    /// The space that holds one size alone.
    pub fn from_size(size: Size) -> (s: Space)
        ensures
            s.min == size,
            s.max == size,
    {
        Space { min: size, max: size }
    }

    /// This space, as far as `outer` has room for it.
    #[verifier::when_used_as_spec(spec_constrain)]
    pub fn constrain(self, outer: Space) -> (s: Space)
        ensures
            s == self.spec_constrain(outer),
    {
        Space {
            min: Size {
                width: clamp(self.min.width, outer.min.width, outer.max.width),
                height: clamp(self.min.height, outer.min.height, outer.max.height),
            },
            max: Size {
                width: clamp(self.max.width, outer.min.width, outer.max.width),
                height: clamp(self.max.height, outer.min.height, outer.max.height),
            },
        }
    }

    /// The size in this space that is nearest to `size`.
    #[verifier::when_used_as_spec(spec_fit)]
    pub fn fit(self, size: Size) -> (s: Size)
        ensures
            s == self.spec_fit(size),
    {
        Size {
            width: clamp(size.width, self.min.width, self.max.width),
            height: clamp(size.height, self.min.height, self.max.height),
        }
    }
}

/// Where a view lies across the line that it stands in.
#[derive(Clone, Copy, Debug, PartialEq, Eq, Structural, Hash)]
pub enum Align {
    Start,
    Center,
    End,
    /// The view is stretched to fill its line.
    Stretch,
}

impl Align {
    /// Whether views are stretched across their line.
    pub fn is_stretch(self) -> (b: bool)
        ensures
            b == (self == Align::Stretch),
    {
        matches!(self, Align::Stretch)
    }

    /// How far from the start of the `available` room something of the
    /// extent `size` lies.
    pub open spec fn spec_align(self, available: Fixed, size: Fixed) -> Fixed {
        match self {
            Align::Start => Fixed { bits: 0 },
            Align::Center => available.minus(size).times(Fixed { bits: HALF }),
            Align::End => available.minus(size),
            Align::Stretch => Fixed { bits: 0 },
        }
    }

    /// How far from the start of the room something lies.
    #[verifier::when_used_as_spec(spec_align)]
    pub fn align(self, available: Fixed, size: Fixed) -> (offset: Fixed)
        ensures
            offset == self.spec_align(available, size),
    {
        match self {
            Align::Start => Fixed::zero(),
            Align::Center => available.minus(size).times(Fixed::from_bits(HALF)),
            Align::End => available.minus(size),
            Align::Stretch => Fixed::zero(),
        }
    }
}

/// How what stands in a line shares the room that is left along it.
#[derive(Clone, Copy, Debug, PartialEq, Eq, Structural, Hash)]
pub enum Justify {
    /// All at the start.
    Start,
    /// All in the middle.
    Center,
    /// All at the end.
    End,
    /// The first at the start, the last at the end, equal gaps between.
    SpaceBetween,
    /// Equal room around each.
    SpaceAround,
    /// Equal gaps between them and before the first and after the last.
    SpaceEvenly,
}

/// The scalar that equals a count.
pub open spec fn spec_count(n: nat) -> Fixed {
    Fixed::of(n * ONE)
}

/// The scalar that equals a count.
pub fn count(n: usize) -> (c: Fixed)
    ensures
        c == spec_count(n as nat),
{
    assert(ONE == 65536);
    Fixed::saturate((n as i128) * 65536)
}

/// The scalar that equals the count after `n`.
pub fn count_after(n: usize) -> (c: Fixed)
    ensures
        c == spec_count((n + 1) as nat),
{
    assert(ONE == 65536);
    Fixed::saturate((n as i128 + 1) * 65536)
}

/// The sum of the first `n` extents.
pub open spec fn spec_total(sizes: Seq<Fixed>, n: nat) -> Fixed
    decreases n,
{
    if n == 0 || n > sizes.len() {
        Fixed { bits: 0 }
    } else {
        spec_total(sizes, (n - 1) as nat).plus(sizes[n - 1])
    }
}

/// The sum of the extents.
pub fn total(sizes: &Vec<Fixed>) -> (t: Fixed)
    ensures
        t == spec_total(sizes@, sizes@.len()),
{
    let mut t = Fixed::zero();
    let mut i: usize = 0;
    while i < sizes.len()
        invariant
            i <= sizes@.len(),
            t == spec_total(sizes@, i as nat),
        decreases sizes@.len() - i,
    {
        t = t.plus(sizes[i]);
        i += 1;
    }
    t
}

impl Justify {
    /// The gap that is left between two neighbours, for extents that sum
    /// to `total` in the room `size`.
    pub open spec fn spec_gap(self, n: nat, total: Fixed, size: Fixed, gap: Fixed) -> Fixed {
        match self {
            Justify::Start | Justify::Center | Justify::End => gap,
            Justify::SpaceBetween => size.minus(total).over(spec_count((n - 1) as nat)),
            Justify::SpaceAround => size.minus(total).over(spec_count(n)),
            Justify::SpaceEvenly => size.minus(total).over(spec_count(n + 1)),
        }
    }

    /// Where the first of `n` extents starts.
    pub open spec fn spec_lead(self, n: nat, total: Fixed, size: Fixed, gap: Fixed) -> Fixed {
        let between = self.spec_gap(n, total, size, gap);
        let taken = total.plus(gap.times(spec_count((n - 1) as nat)));
        match self {
            Justify::Start | Justify::SpaceBetween => Fixed { bits: 0 },
            Justify::Center => size.minus(taken).times(Fixed { bits: HALF }),
            Justify::End => size.minus(taken),
            Justify::SpaceAround => between.times(Fixed { bits: HALF }),
            Justify::SpaceEvenly => between,
        }
    }

    /// Where the extent at `i` starts: the lead, and every extent before
    /// it with the gap after it.
    pub open spec fn spec_offset(self, sizes: Seq<Fixed>, size: Fixed, gap: Fixed, i: nat) -> Fixed
        decreases i,
    {
        let n = sizes.len();
        let total = spec_total(sizes, n);
        if i == 0 || i > n {
            self.spec_lead(n, total, size, gap)
        } else {
            self.spec_offset(sizes, size, gap, (i - 1) as nat).plus(sizes[i - 1]).plus(
                self.spec_gap(n, total, size, gap),
            )
        }
    }

    /// Lays out extents along a room of the extent `size` with the gap
    /// `gap` between them: where each of them starts.
    pub fn layout(self, sizes: &Vec<Fixed>, size: Fixed, gap: Fixed) -> (offsets: Vec<Fixed>)
        ensures
            offsets@.len() == sizes@.len(),
            forall|i: int|
                0 <= i < sizes@.len() ==> #[trigger] offsets@[i] == self.spec_offset(
                    sizes@,
                    size,
                    gap,
                    i as nat,
                ),
    {
        let n = sizes.len();
        let mut offsets: Vec<Fixed> = Vec::new();
        if n == 0 {
            return offsets;
        }
        let sum = total(sizes);
        let between = match self {
            Justify::Start | Justify::Center | Justify::End => gap,
            Justify::SpaceBetween => size.minus(sum).over(count(n - 1)),
            Justify::SpaceAround => size.minus(sum).over(count(n)),
            Justify::SpaceEvenly => size.minus(sum).over(count_after(n)),
        };
        let taken = sum.plus(gap.times(count(n - 1)));
        let mut position = match self {
            Justify::Start | Justify::SpaceBetween => Fixed::zero(),
            Justify::Center => size.minus(taken).times(Fixed::from_bits(HALF)),
            Justify::End => size.minus(taken),
            Justify::SpaceAround => between.times(Fixed::from_bits(HALF)),
            Justify::SpaceEvenly => between,
        };
        let mut i: usize = 0;
        while i < n
            invariant
                i <= n == sizes@.len(),
                n > 0,
                offsets@.len() == i,
                between == self.spec_gap(n as nat, spec_total(sizes@, n as nat), size, gap),
                position == self.spec_offset(sizes@, size, gap, i as nat),
                forall|j: int|
                    0 <= j < i ==> #[trigger] offsets@[j] == self.spec_offset(
                        sizes@,
                        size,
                        gap,
                        j as nat,
                    ),
            decreases n - i,
        {
            offsets.push(position);
            position = position.plus(sizes[i]).plus(between);
            i += 1;
        }
        offsets
    }
}

} // verus!
