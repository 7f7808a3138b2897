//! A view that stacks its content in a line, or in several.

use vstd::prelude::*;
use crate::layout::fixed::Fixed;
use crate::layout::rect::{Size, max, min, spec_max, spec_min};
use crate::layout::space::{Align, Axis, Justify, Space, clamp, count, spec_clamp, spec_count};
use crate::layout::fixed::LIMIT;
use crate::layout::vector::Vector;

verus! {

/// A view that stacks its content in a line.
#[derive(Debug)]
pub struct Stack<V> {
    /// The content of the stack.
    pub content: V,
    /// The size of the stack.
    pub space: Space,
    /// The axis of the stack.
    pub axis: Axis,
    /// Whether the stack should wrap its content.
    pub wrap: bool,
    /// How to justify the content along the main axis.
    pub justify_content: Justify,
    /// How to align the content along the cross axis, within each line.
    pub align_items: Align,
    /// How to align the lines along the cross axis.
    pub align_content: Justify,
    /// The gap between columns.
    pub column_gap: Fixed,
    /// The gap between rows.
    pub row_gap: Fixed,
}

/// Create a horizontal stack.
pub fn hstack<V>(content: V) -> (s: Stack<V>)
    ensures
        s == Stack::spec_new(Axis::Horizontal, content),
{
    Stack::hstack(content)
}

/// Create a vertical stack.
pub fn vstack<V>(content: V) -> (s: Stack<V>)
    ensures
        s == Stack::spec_new(Axis::Vertical, content),
{
    Stack::vstack(content)
}

impl<V> Stack<V> {
    /// The stack along `axis` that takes any room, does not wrap, starts
    /// its content at the start and centers it across, without gaps.
    pub open spec fn spec_new(axis: Axis, content: V) -> Stack<V> {
        Stack {
            content,
            space: Space::spec_unbounded(),
            axis,
            wrap: false,
            justify_content: Justify::Start,
            align_items: Align::Center,
            align_content: Justify::Start,
            column_gap: Fixed { bits: 0 },
            row_gap: Fixed { bits: 0 },
        }
    }

    /// Create a new [`Stack`].
    pub fn new(axis: Axis, content: V) -> (s: Stack<V>)
        ensures
            s == Stack::spec_new(axis, content),
    {
        Stack {
            content,
            space: Space::unbounded(),
            axis,
            wrap: false,
            justify_content: Justify::Start,
            align_items: Align::Center,
            align_content: Justify::Start,
            column_gap: Fixed::zero(),
            row_gap: Fixed::zero(),
        }
    }

    /// Create a new horizontal [`Stack`].
    pub fn hstack(content: V) -> (s: Stack<V>)
        ensures
            s == Stack::spec_new(Axis::Horizontal, content),
    {
        Stack::new(Axis::Horizontal, content)
    }

    /// Create a new vertical [`Stack`].
    pub fn vstack(content: V) -> (s: Stack<V>)
        ensures
            s == Stack::spec_new(Axis::Vertical, content),
    {
        Stack::new(Axis::Vertical, content)
    }

    /// Set the space of the stack.
    pub fn space(self, space: Space) -> (s: Stack<V>)
        ensures
            s == (Stack { space, ..self }),
    {
        let mut this = self;
        this.space = space;
        this
    }

    /// Set the size of the stack.
    pub fn size(self, size: Size) -> (s: Stack<V>)
        ensures
            s == (Stack { space: Space { min: size, max: size }, ..self }),
    {
        let mut this = self;
        this.space = Space::from_size(size);
        this
    }

    /// Set the width of the stack.
    pub fn width(self, width: Fixed) -> (s: Stack<V>)
        ensures
            s == (Stack {
                space: Space {
                    min: Size { width, height: self.space.min.height },
                    max: Size { width, height: self.space.max.height },
                },
                ..self
            }),
    {
        let mut this = self;
        this.space.min.width = width;
        this.space.max.width = width;
        this
    }

    /// Set the height of the stack.
    pub fn height(self, height: Fixed) -> (s: Stack<V>)
        ensures
            s == (Stack {
                space: Space {
                    min: Size { width: self.space.min.width, height },
                    max: Size { width: self.space.max.width, height },
                },
                ..self
            }),
    {
        let mut this = self;
        this.space.min.height = height;
        this.space.max.height = height;
        this
    }

    /// Set the minimum width of the stack.
    pub fn min_width(self, min_width: Fixed) -> (s: Stack<V>)
        ensures
            s == (Stack {
                space: Space {
                    min: Size { width: min_width, height: self.space.min.height },
                    max: self.space.max,
                },
                ..self
            }),
    {
        let mut this = self;
        this.space.min.width = min_width;
        this
    }

    /// Set the minimum height of the stack.
    pub fn min_height(self, min_height: Fixed) -> (s: Stack<V>)
        ensures
            s == (Stack {
                space: Space {
                    min: Size { width: self.space.min.width, height: min_height },
                    max: self.space.max,
                },
                ..self
            }),
    {
        let mut this = self;
        this.space.min.height = min_height;
        this
    }

    /// Set the maximum width of the stack.
    pub fn max_width(self, max_width: Fixed) -> (s: Stack<V>)
        ensures
            s == (Stack {
                space: Space {
                    min: self.space.min,
                    max: Size { width: max_width, height: self.space.max.height },
                },
                ..self
            }),
    {
        let mut this = self;
        this.space.max.width = max_width;
        this
    }

    /// Set the maximum height of the stack.
    pub fn max_height(self, max_height: Fixed) -> (s: Stack<V>)
        ensures
            s == (Stack {
                space: Space {
                    min: self.space.min,
                    max: Size { width: self.space.max.width, height: max_height },
                },
                ..self
            }),
    {
        let mut this = self;
        this.space.max.height = max_height;
        this
    }

    /// Set the axis of the stack.
    pub fn axis(self, axis: Axis) -> (s: Stack<V>)
        ensures
            s == (Stack { axis, ..self }),
    {
        let mut this = self;
        this.axis = axis;
        this
    }

    /// Set whether the stack should wrap its content.
    pub fn wrap(self, wrap: bool) -> (s: Stack<V>)
        ensures
            s == (Stack { wrap, ..self }),
    {
        let mut this = self;
        this.wrap = wrap;
        this
    }

    /// Set the justify content.
    pub fn justify_content(self, justify: Justify) -> (s: Stack<V>)
        ensures
            s == (Stack { justify_content: justify, ..self }),
    {
        let mut this = self;
        this.justify_content = justify;
        this
    }

    /// Set the align items.
    pub fn align_items(self, align: Align) -> (s: Stack<V>)
        ensures
            s == (Stack { align_items: align, ..self }),
    {
        let mut this = self;
        this.align_items = align;
        this
    }

    /// Set the align content.
    pub fn align_content(self, align: Justify) -> (s: Stack<V>)
        ensures
            s == (Stack { align_content: align, ..self }),
    {
        let mut this = self;
        this.align_content = align;
        this
    }

    /// Set the gap between columns and rows.
    pub fn gap(self, gap: Fixed) -> (s: Stack<V>)
        ensures
            s == (Stack { column_gap: gap, row_gap: gap, ..self }),
    {
        let mut this = self;
        this.column_gap = gap;
        this.row_gap = gap;
        this
    }

    /// Set the gap between columns.
    pub fn column_gap(self, gap: Fixed) -> (s: Stack<V>)
        ensures
            s == (Stack { column_gap: gap, ..self }),
    {
        let mut this = self;
        this.column_gap = gap;
        this
    }

    /// Set the gap between rows.
    pub fn row_gap(self, gap: Fixed) -> (s: Stack<V>)
        ensures
            s == (Stack { row_gap: gap, ..self }),
    {
        let mut this = self;
        this.row_gap = gap;
        this
    }
}

/// What the layout of one view of a stack gave.
#[derive(Clone, Copy, Debug, PartialEq, Eq, Structural, Hash)]
pub struct Child {
    /// The size that the view took.
    pub size: Size,
    /// The share of the room left over that the view asks for; zero for a
    /// view that keeps its size.
    pub flex: Fixed,
}

impl Child {
    /// Whether the view grows and shrinks with the room.
    pub open spec fn spec_is_flex(self) -> bool {
        self.flex.bits > 0
    }

    #[verifier::when_used_as_spec(spec_is_flex)]
    pub fn is_flex(self) -> (b: bool)
        ensures
            b == self.spec_is_flex(),
    {
        self.flex.bits > 0
    }
}

/// One line of a stack: the views from `start` up to `end`, the room they
/// take along the line, the room the line takes across, and the sum of
/// their shares.
#[derive(Clone, Copy, Debug, PartialEq, Eq, Structural, Hash)]
pub struct StackLine {
    pub start: usize,
    pub end: usize,
    pub major: Fixed,
    pub minor: Fixed,
    pub flex_sum: Fixed,
}

/// What a stack keeps between its layout and its drawing.
#[derive(Clone, Debug, PartialEq, Eq)]
pub struct StackState {
    pub lines: Vec<StackLine>,
    pub line_offsets: Vec<Fixed>,
    pub majors: Vec<Fixed>,
    pub minors: Vec<Fixed>,
}

/// The greatest extent along the line among the first `n` lines.
pub open spec fn spec_major(lines: Seq<StackLine>, n: nat) -> Fixed
    decreases n,
{
    if n == 0 || n > lines.len() {
        Fixed { bits: 0 }
    } else {
        spec_max(spec_major(lines, (n - 1) as nat), lines[n - 1].major)
    }
}

/// The sum of the extents across of the first `n` lines.
pub open spec fn spec_minor_sum(lines: Seq<StackLine>, n: nat) -> Fixed
    decreases n,
{
    if n == 0 || n > lines.len() {
        Fixed { bits: 0 }
    } else {
        spec_minor_sum(lines, (n - 1) as nat).plus(lines[n - 1].minor)
    }
}

impl StackState {
    /// The state for a stack of `len` views, before its first layout.
    pub fn new(len: usize) -> (s: StackState)
        ensures
            s.lines@.len() == 0,
            s.line_offsets@.len() == 0,
            s.majors@ == Seq::new(len as nat, |i: int| Fixed { bits: 0 }),
            s.minors@ == Seq::new(len as nat, |i: int| Fixed { bits: 0 }),
    {
        let mut s = StackState {
            lines: Vec::new(),
            line_offsets: Vec::new(),
            majors: Vec::new(),
            minors: Vec::new(),
        };
        s.resize(len);
        proof {
            assert(s.majors@ =~= Seq::new(len as nat, |i: int| Fixed { bits: 0 }));
            assert(s.minors@ =~= Seq::new(len as nat, |i: int| Fixed { bits: 0 }));
        }
        s
    }

    /// Makes room for `len` views: the extents of those that stay are
    /// kept, those of new ones are zero.
    pub fn resize(&mut self, len: usize)
        ensures
            final(self).lines == old(self).lines,
            final(self).line_offsets == old(self).line_offsets,
            final(self).majors@.len() == len,
            final(self).minors@.len() == len,
            forall|i: int|
                0 <= i < len ==> #[trigger] final(self).majors@[i] == if i < old(self).majors@.len() {
                    old(self).majors@[i]
                } else {
                    Fixed { bits: 0 }
                },
            forall|i: int|
                0 <= i < len ==> #[trigger] final(self).minors@[i] == if i < old(self).minors@.len() {
                    old(self).minors@[i]
                } else {
                    Fixed { bits: 0 }
                },
    {
        resize_extents(&mut self.majors, len);
        resize_extents(&mut self.minors, len);
    }

    /// The extent of the stack along its lines: that of the longest line.
    pub fn major(&self) -> (m: Fixed)
        ensures
            m == spec_major(self.lines@, self.lines@.len()),
    {
        let mut major = Fixed::zero();
        let mut i: usize = 0;
        while i < self.lines.len()
            invariant
                i <= self.lines@.len(),
                major == spec_major(self.lines@, i as nat),
            decreases self.lines@.len() - i,
        {
            major = max(major, self.lines[i].major);
            i += 1;
        }
        major
    }

    /// The extent of the stack across its lines, of which there must be
    /// one at least: the sum of theirs, and the gaps between them.
    pub fn minor(&self, minor_gap: Fixed) -> (m: Fixed)
        requires
            self.lines@.len() >= 1,
        ensures
            m == spec_minor_sum(self.lines@, self.lines@.len()).plus(
                minor_gap.times(spec_count((self.lines@.len() - 1) as nat)),
            ),
    {
        let total_gap = minor_gap.times(count(self.lines.len() - 1));
        let mut sum = Fixed::zero();
        let mut i: usize = 0;
        while i < self.lines.len()
            invariant
                i <= self.lines@.len(),
                sum == spec_minor_sum(self.lines@, i as nat),
            decreases self.lines@.len() - i,
        {
            sum = sum.plus(self.lines[i].minor);
            i += 1;
        }
        sum.plus(total_gap)
    }
}

/// Brings a list of extents to the length `len`: what is beyond it goes,
/// what is missing is zero.
pub fn resize_extents(v: &mut Vec<Fixed>, len: usize)
    ensures
        final(v)@.len() == len,
        forall|i: int|
            0 <= i < len ==> #[trigger] final(v)@[i] == if i < old(v)@.len() {
                old(v)@[i]
            } else {
                Fixed { bits: 0 }
            },
{
    v.truncate(len);
    while v.len() < len
        invariant
            v@.len() <= len,
            old(v)@.len() <= v@.len() || v@.len() == len,
            forall|i: int|
                0 <= i < v@.len() ==> #[trigger] v@[i] == if i < old(v)@.len() {
                    old(v)@[i]
                } else {
                    Fixed { bits: 0 }
                },
        decreases len - v@.len(),
    {
        v.push(Fixed::zero());
    }
}

/// The extents of a view along the lines and across them. A view that
/// grows and shrinks with the room is cut down to the room there is.
pub open spec fn child_extents(axis: Axis, child: Child, max_major: Fixed, max_minor: Fixed) -> (
    Fixed,
    Fixed,
) {
    let room = axis.spec_pack(max_major, max_minor);
    let size = if child.spec_is_flex() {
        Size {
            width: spec_min(child.size.width, room.width),
            height: spec_min(child.size.height, room.height),
        }
    } else {
        child.size
    };
    axis.spec_unpack(size)
}

/// The lines of a stack while its views are taken in one after another.
pub struct Measure {
    /// The lines that are full.
    pub lines: Seq<StackLine>,
    /// The first view of the line that is being filled.
    pub start: int,
    /// The room that the line being filled takes along it.
    pub major: Fixed,
    /// The room that it takes across.
    pub minor: Fixed,
    /// The sum of the shares of its views.
    pub flex_sum: Fixed,
}

/// The lines after the first `i` views were taken in.
///
/// Each view joins the line that is being filled, after the gap where it
/// is not the first view of the stack. In a stack that wraps, a view with
/// which the line would be longer than the room starts a line of its own,
/// and the line before it is full.
pub open spec fn measured(
    children: Seq<Child>,
    i: nat,
    axis: Axis,
    wrap: bool,
    gap_major: Fixed,
    max_major: Fixed,
    max_minor: Fixed,
) -> Measure
    decreases i,
{
    if i == 0 || i > children.len() {
        Measure {
            lines: Seq::empty(),
            start: 0,
            major: Fixed { bits: 0 },
            minor: Fixed { bits: 0 },
            flex_sum: Fixed { bits: 0 },
        }
    } else {
        let m = measured(children, (i - 1) as nat, axis, wrap, gap_major, max_major, max_minor);
        let child = children[i - 1];
        let (child_major, child_minor) = child_extents(axis, child, max_major, max_minor);
        let gap = if i - 1 > 0 {
            gap_major
        } else {
            Fixed { bits: 0 }
        };
        if m.major.plus(child_major).plus(gap).bits > max_major.bits && wrap {
            Measure {
                lines: m.lines.push(
                    StackLine {
                        start: m.start as usize,
                        end: (i - 1) as usize,
                        major: m.major,
                        minor: spec_min(m.minor, max_minor),
                        flex_sum: m.flex_sum,
                    },
                ),
                start: i - 1,
                major: child_major,
                minor: child_minor,
                flex_sum: child.flex,
            }
        } else {
            Measure {
                lines: m.lines,
                start: m.start,
                major: m.major.plus(child_major.plus(gap)),
                minor: spec_max(m.minor, child_minor),
                flex_sum: m.flex_sum.plus(child.flex),
            }
        }
    }
}

/// The lines of a stack of the given views: those that are full, and the
/// one that was being filled when the views ran out.
pub open spec fn measured_lines(
    children: Seq<Child>,
    axis: Axis,
    wrap: bool,
    gap_major: Fixed,
    max_major: Fixed,
    max_minor: Fixed,
) -> Seq<StackLine> {
    let m = measured(children, children.len(), axis, wrap, gap_major, max_major, max_minor);
    m.lines.push(
        StackLine {
            start: m.start as usize,
            end: children.len() as usize,
            major: m.major,
            minor: spec_min(m.minor, max_minor),
            flex_sum: m.flex_sum,
        },
    )
}

/// Whether the lines share out the views from the first to the one before
/// `n` in order: the first line starts with the first view, each line ends
/// where the next one starts, and the last one ends with the last view.
pub open spec fn lines_partition(lines: Seq<StackLine>, n: int) -> bool {
    &&& lines.len() >= 1
    &&& lines[0].start == 0
    &&& lines.last().end == n
    &&& forall|k: int| 0 <= k < lines.len() ==> (#[trigger] lines[k]).start <= lines[k].end
    &&& forall|k: int| 0 <= k < lines.len() - 1 ==> (#[trigger] lines[k]).end == lines[k + 1].start
}

/// The place of the first line at or after `from` that holds the view `i`.
pub open spec fn line_of(lines: Seq<StackLine>, i: int, from: int) -> Option<int>
    decreases lines.len() - from,
{
    if from < 0 || from >= lines.len() {
        None
    } else if lines[from].start <= i < lines[from].end {
        Some(from)
    } else {
        line_of(lines, i, from + 1)
    }
}

/// How much a view of the line grows for each unit of its share, so that
/// the line comes to fit the room: it shrinks where the line is too long,
/// and grows where it is too short.
pub open spec fn px_per_flex(line: StackLine, min_major: Fixed, max_major: Fixed) -> Fixed {
    let overflow = line.major.minus(max_major);
    let underflow = min_major.minus(line.major);
    if overflow.bits > 0 {
        overflow.neg().over(line.flex_sum)
    } else if underflow.bits > 0 {
        underflow.over(line.flex_sum)
    } else {
        Fixed { bits: 0 }
    }
}

/// The room in which a view of the line is laid out again, if it is:
/// a view that keeps its size is, only where views are stretched across.
pub open spec fn flex_space(
    axis: Axis,
    align_items: Align,
    line: StackLine,
    major: Fixed,
    child: Child,
    min_major: Fixed,
    max_major: Fixed,
    max_minor: Fixed,
) -> Option<Space> {
    if !child.spec_is_flex() && align_items != Align::Stretch {
        None
    } else {
        let desired = major.plus(px_per_flex(line, min_major, max_major).times(child.flex));
        if align_items == Align::Stretch {
            Some(
                Space {
                    min: axis.spec_pack(desired, line.minor),
                    max: axis.spec_pack(desired, line.minor),
                },
            )
        } else {
            Some(
                Space {
                    min: axis.spec_pack(desired, Fixed { bits: 0 }),
                    max: axis.spec_pack(desired, max_minor),
                },
            )
        }
    }
}

/// The lines and the extents of a stack while the views that were laid out
/// again are taken in.
pub struct Flexed {
    pub lines: Seq<StackLine>,
    pub majors: Seq<Fixed>,
    pub minors: Seq<Fixed>,
}

/// The lines and extents after the first `i` views were looked at: a view
/// that was laid out again has its new extents, and its line is longer by
/// what the view grew.
pub open spec fn flexed(start: Flexed, sizes: Seq<Option<Size>>, axis: Axis, i: nat) -> Flexed
    decreases i,
{
    if i == 0 || i > sizes.len() || i > start.majors.len() || i > start.minors.len() {
        start
    } else {
        let f = flexed(start, sizes, axis, (i - 1) as nat);
        match (sizes[i - 1], line_of(f.lines, i - 1, 0)) {
            (Some(size), Some(k)) => {
                let (child_major, child_minor) = axis.spec_unpack(size);
                let line = f.lines[k];
                Flexed {
                    lines: f.lines.update(
                        k,
                        StackLine {
                            start: line.start,
                            end: line.end,
                            major: line.major.plus(child_major.minus(f.majors[i - 1])),
                            minor: line.minor,
                            flex_sum: line.flex_sum,
                        },
                    ),
                    majors: f.majors.update(i - 1, child_major),
                    minors: f.minors.update(i - 1, child_minor),
                }
            },
            _ => f,
        }
    }
}

impl<V> Stack<V> {
    /// The room in which every view is laid out at first: any room in a
    /// stack that wraps, else any along the line and `max_minor` across.
    pub fn content_space(&self, max_minor: Fixed) -> (s: Space)
        ensures
            s == if self.wrap {
                Space::spec_unbounded()
            } else {
                Space {
                    min: Size { width: Fixed { bits: 0 }, height: Fixed { bits: 0 } },
                    max: self.axis.spec_pack(Fixed { bits: LIMIT }, max_minor),
                }
            },
    {
        if self.wrap {
            Space::unbounded()
        } else {
            Space::new(
                Size::new(Fixed::zero(), Fixed::zero()),
                self.axis.pack(Fixed::from_bits(LIMIT), max_minor),
            )
        }
    }

    /// Shares the views out into lines, from the sizes that they took when
    /// they were laid out in the room of `content_space`, and records
    /// their extents. The state must have room for as many views as there
    /// are.
    pub fn measure_fixed(
        &self,
        state: &mut StackState,
        children: &Vec<Child>,
        gap_major: Fixed,
        max_major: Fixed,
        max_minor: Fixed,
    )
        requires
            old(state).majors@.len() == children@.len(),
            old(state).minors@.len() == children@.len(),
        ensures
            final(state).lines@ == measured_lines(
                children@,
                self.axis,
                self.wrap,
                gap_major,
                max_major,
                max_minor,
            ),
            lines_partition(final(state).lines@, children@.len() as int),
            !self.wrap ==> final(state).lines@.len() == 1,
            final(state).line_offsets == old(state).line_offsets,
            final(state).majors@.len() == children@.len(),
            final(state).minors@.len() == children@.len(),
            forall|i: int|
                0 <= i < children@.len() ==> (#[trigger] final(state).majors@[i], final(state).minors@[i]) == child_extents(self.axis, children@[i], max_major, max_minor),
    {
        state.lines.clear();
        let mut major = Fixed::zero();
        let mut minor = Fixed::zero();
        let mut flex_sum = Fixed::zero();
        let mut start: usize = 0;
        let n = children.len();
        let mut i: usize = 0;
        while i < n
            invariant
                i <= n == children@.len(),
                state.majors@.len() == n,
                state.minors@.len() == n,
                state.line_offsets == old(state).line_offsets,
                start <= i,
                (Measure { lines: state.lines@, start: start as int, major, minor, flex_sum })
                    == measured(
                    children@,
                    i as nat,
                    self.axis,
                    self.wrap,
                    gap_major,
                    max_major,
                    max_minor,
                ),
                forall|j: int|
                    0 <= j < i ==> (#[trigger] state.majors@[j], state.minors@[j])
                        == child_extents(self.axis, children@[j], max_major, max_minor),
                !self.wrap ==> state.lines@.len() == 0,
                state.lines@.len() == 0 ==> start == 0,
                state.lines@.len() > 0 ==> state.lines@[0].start == 0 && state.lines@.last().end
                    == start,
                forall|k: int|
                    0 <= k < state.lines@.len() ==> (#[trigger] state.lines@[k]).start
                        <= state.lines@[k].end,
                forall|k: int|
                    0 <= k < state.lines@.len() - 1 ==> (#[trigger] state.lines@[k]).end
                        == state.lines@[k + 1].start,
            decreases n - i,
        {
            let child = children[i];
            let mut size = child.size;
            if child.is_flex() {
                let room = self.axis.pack(max_major, max_minor);
                size = Size {
                    width: min(size.width, room.width),
                    height: min(size.height, room.height),
                };
            }
            let (child_major, child_minor) = self.axis.unpack(size);
            state.majors.set(i, child_major);
            state.minors.set(i, child_minor);
            let gap = if i > 0 {
                gap_major
            } else {
                Fixed::zero()
            };
            if major.plus(child_major).plus(gap).bits > max_major.bits && self.wrap {
                state.lines.push(
                    StackLine { start, end: i, major, minor: min(minor, max_minor), flex_sum },
                );
                start = i;
                major = child_major;
                minor = child_minor;
                flex_sum = child.flex;
            } else {
                major = major.plus(child_major.plus(gap));
                minor = max(minor, child_minor);
                flex_sum = flex_sum.plus(child.flex);
            }
            i += 1;
        }
        state.lines.push(
            StackLine { start, end: n, major, minor: min(minor, max_minor), flex_sum },
        );
    }

    /// Brings the one line of a stack that does not wrap to the room that
    /// there is across; the lines of a stack that wraps stay as they are.
    pub fn fit_single_line(&self, state: &mut StackState, min_minor: Fixed, max_minor: Fixed)
        requires
            old(state).lines@.len() >= 1,
        ensures
            final(state).line_offsets == old(state).line_offsets,
            final(state).majors == old(state).majors,
            final(state).minors == old(state).minors,
            final(state).lines@ == if self.wrap {
                old(state).lines@
            } else {
                let line = old(state).lines@[0];
                old(state).lines@.update(
                    0,
                    StackLine {
                        start: line.start,
                        end: line.end,
                        major: line.major,
                        minor: spec_clamp(line.minor, min_minor, max_minor),
                        flex_sum: line.flex_sum,
                    },
                )
            },
    {
        if !self.wrap {
            let line = state.lines[0];
            state.lines.set(
                0,
                StackLine {
                    start: line.start,
                    end: line.end,
                    major: line.major,
                    minor: clamp(line.minor, min_minor, max_minor),
                    flex_sum: line.flex_sum,
                },
            );
        }
    }

    /// The place of the first line that holds the view `i`.
    pub fn find_line(state: &StackState, i: usize) -> (k: Option<usize>)
        ensures
            match k {
                Some(k) => line_of(state.lines@, i as int, 0) == Some(k as int) && k
                    < state.lines@.len(),
                None => line_of(state.lines@, i as int, 0) is None,
            },
    {
        let n = state.lines.len();
        let mut k: usize = 0;
        while k < n
            invariant
                k <= n == state.lines@.len(),
                line_of(state.lines@, i as int, 0) == line_of(state.lines@, i as int, k as int),
            decreases n - k,
        {
            if state.lines[k].start <= i && i < state.lines[k].end {
                return Some(k);
            }
            k += 1;
        }
        None
    }

    /// For every view, the room in which it is to be laid out again so
    /// that its line comes to fit the room of the stack; none for a view
    /// that stays as it is.
    pub fn measure_flex(
        &self,
        state: &StackState,
        children: &Vec<Child>,
        min_major: Fixed,
        max_major: Fixed,
        max_minor: Fixed,
    ) -> (spaces: Vec<Option<Space>>)
        requires
            state.majors@.len() == children@.len(),
        ensures
            spaces@.len() == children@.len(),
            forall|i: int|
                0 <= i < children@.len() ==> #[trigger] spaces@[i] == match line_of(
                    state.lines@,
                    i,
                    0,
                ) {
                    Some(k) => flex_space(
                        self.axis,
                        self.align_items,
                        state.lines@[k],
                        state.majors@[i],
                        children@[i],
                        min_major,
                        max_major,
                        max_minor,
                    ),
                    None => None,
                },
    {
        let n = children.len();
        let mut spaces: Vec<Option<Space>> = Vec::new();
        let mut i: usize = 0;
        while i < n
            invariant
                i <= n == children@.len(),
                state.majors@.len() == n,
                spaces@.len() == i,
                forall|j: int|
                    0 <= j < i ==> #[trigger] spaces@[j] == match line_of(state.lines@, j, 0) {
                        Some(k) => flex_space(
                            self.axis,
                            self.align_items,
                            state.lines@[k],
                            state.majors@[j],
                            children@[j],
                            min_major,
                            max_major,
                            max_minor,
                        ),
                        None => None,
                    },
            decreases n - i,
        {
            let child = children[i];
            let space = match Stack::<V>::find_line(state, i) {
                Some(k) => {
                    let line = state.lines[k];
                    if !child.is_flex() && !self.align_items.is_stretch() {
                        None
                    } else {
                        let overflow = line.major.minus(max_major);
                        let underflow = min_major.minus(line.major);
                        let px_per_flex = if overflow.bits > 0 {
                            overflow.neg().over(line.flex_sum)
                        } else if underflow.bits > 0 {
                            underflow.over(line.flex_sum)
                        } else {
                            Fixed::zero()
                        };
                        let desired_major = state.majors[i].plus(px_per_flex.times(child.flex));
                        if self.align_items.is_stretch() {
                            Some(
                                Space::new(
                                    self.axis.pack(desired_major, line.minor),
                                    self.axis.pack(desired_major, line.minor),
                                ),
                            )
                        } else {
                            Some(
                                Space::new(
                                    self.axis.pack(desired_major, Fixed::zero()),
                                    self.axis.pack(desired_major, max_minor),
                                ),
                            )
                        }
                    }
                },
                None => None,
            };
            spaces.push(space);
            i += 1;
        }
        spaces
    }

    /// Takes in the sizes of the views that were laid out again: each has
    /// its new extents, and its line is longer by what the view grew.
    pub fn apply_flex(&self, state: &mut StackState, sizes: &Vec<Option<Size>>)
        requires
            old(state).majors@.len() == sizes@.len(),
            old(state).minors@.len() == sizes@.len(),
        ensures
            final(state).line_offsets == old(state).line_offsets,
            (Flexed {
                lines: final(state).lines@,
                majors: final(state).majors@,
                minors: final(state).minors@,
            }) == flexed(
                Flexed {
                    lines: old(state).lines@,
                    majors: old(state).majors@,
                    minors: old(state).minors@,
                },
                sizes@,
                self.axis,
                sizes@.len(),
            ),
    {
        let n = sizes.len();
        let ghost before = Flexed {
            lines: state.lines@,
            majors: state.majors@,
            minors: state.minors@,
        };
        let mut i: usize = 0;
        while i < n
            invariant
                i <= n == sizes@.len(),
                state.majors@.len() == n,
                state.minors@.len() == n,
                before.majors.len() == n,
                before.minors.len() == n,
                state.line_offsets == old(state).line_offsets,
                (Flexed { lines: state.lines@, majors: state.majors@, minors: state.minors@ })
                    == flexed(before, sizes@, self.axis, i as nat),
            decreases n - i,
        {
            match sizes[i] {
                Some(size) => {
                    match Stack::<V>::find_line(state, i) {
                        Some(k) => {
                            let (child_major, child_minor) = self.axis.unpack(size);
                            let line = state.lines[k];
                            state.lines.set(
                                k,
                                StackLine {
                                    start: line.start,
                                    end: line.end,
                                    major: line.major.plus(child_major.minus(state.majors[i])),
                                    minor: line.minor,
                                    flex_sum: line.flex_sum,
                                },
                            );
                            state.majors.set(i, child_major);
                            state.minors.set(i, child_minor);
                        },
                        None => {},
                    }
                },
                None => {},
            }
            i += 1;
        }
    }
}

/// The extents across of the lines, in order.
pub open spec fn line_minors(lines: Seq<StackLine>) -> Seq<Fixed> {
    Seq::new(lines.len(), |k: int| lines[k].minor)
}

impl<V> Stack<V> {
    /// The gaps of the stack, along its lines and across them.
    pub open spec fn spec_gaps(self) -> (Fixed, Fixed) {
        self.axis.spec_unpack(Size { width: self.column_gap, height: self.row_gap })
    }

    /// The room that the stack has, of the room `space` that it is given:
    /// its own, as far as the given one has room for it.
    pub fn room(&self, space: Space) -> (s: Space)
        ensures
            s == self.space.spec_constrain(space),
    {
        self.space.constrain(space)
    }

    /// The size of the stack in the room `space`: as long as its longest
    /// line, though no longer than the room, and as far across as its
    /// lines and the gaps between them, though no less than the room asks;
    /// and of that the nearest that the room has.
    pub open spec fn stack_size(self, lines: Seq<StackLine>, space: Space) -> Size {
        let max_major = self.axis.spec_unpack(space.max).0;
        let min_minor = self.axis.spec_unpack(space.min).1;
        let content_major = spec_min(spec_major(lines, lines.len()), max_major);
        let content_minor = spec_max(
            spec_minor_sum(lines, lines.len()).plus(
                self.spec_gaps().1.times(spec_count((lines.len() - 1) as nat)),
            ),
            min_minor,
        );
        space.spec_fit(self.axis.spec_pack(content_major, content_minor))
    }

    /// Where the line `k` lies across the stack of the size `size`.
    pub open spec fn line_offset(self, lines: Seq<StackLine>, size: Size, k: int) -> Fixed {
        self.align_content.spec_offset(
            line_minors(lines),
            self.axis.spec_unpack(size).1,
            self.spec_gaps().1,
            k as nat,
        )
    }

    /// Where the view `i` of the line `k` lies in the stack of the size
    /// `size`: along its line where the justification of the line puts
    /// it, and across where its line lies and its alignment in the line
    /// puts it.
    pub open spec fn child_position(
        self,
        lines: Seq<StackLine>,
        majors: Seq<Fixed>,
        minors: Seq<Fixed>,
        size: Size,
        k: int,
        i: int,
    ) -> Vector {
        let line = lines[k];
        let along = self.justify_content.spec_offset(
            majors.subrange(line.start as int, line.end as int),
            self.axis.spec_unpack(size).0,
            self.spec_gaps().0,
            (i - line.start) as nat,
        );
        let across = self.line_offset(lines, size, k).plus(
            self.align_items.spec_align(line.minor, minors[i]),
        );
        let at = self.axis.spec_pack(along, across);
        Vector { x: at.width, y: at.height }
    }

    /// Lays out the stack in the room `space`, once its views are shared
    /// out into lines and measured: the size of the stack, and where each
    /// view lies in it. The state records where each line lies across.
    pub fn layout(&self, state: &mut StackState, space: Space) -> (r: (Size, Vec<Vector>))
        requires
            old(state).majors@.len() == old(state).minors@.len(),
            lines_partition(old(state).lines@, old(state).majors@.len() as int),
        ensures
            final(state).lines == old(state).lines,
            final(state).majors == old(state).majors,
            final(state).minors == old(state).minors,
            r.0 == self.stack_size(old(state).lines@, space),
            final(state).line_offsets@.len() == old(state).lines@.len(),
            forall|k: int|
                0 <= k < old(state).lines@.len() ==> #[trigger] final(state).line_offsets@[k]
                    == self.line_offset(old(state).lines@, r.0, k),
            r.1@.len() == old(state).majors@.len(),
            forall|k: int, i: int|
                0 <= k < old(state).lines@.len() && old(state).lines@[k].start <= i < old(state).lines@[k].end ==> r.1@[i] == #[trigger] self.child_position(
                    old(state).lines@,
                    old(state).majors@,
                    old(state).minors@,
                    r.0,
                    k,
                    i,
                ),
    {
        let (max_major, max_minor) = self.axis.unpack(space.max);
        let (min_major, min_minor) = self.axis.unpack(space.min);
        let (gap_major, gap_minor) = self.axis.unpack(
            Size { width: self.column_gap, height: self.row_gap },
        );
        let content_major = min(state.major(), max_major);
        let content_minor = max(state.minor(gap_minor), min_minor);
        let content_size = self.axis.pack(content_major, content_minor);
        let size = space.fit(content_size);
        let (major, minor) = self.axis.unpack(size);
        let count = state.lines.len();
        let n = state.majors.len();
        let mut across: Vec<Fixed> = Vec::new();
        let mut k: usize = 0;
        while k < count
            invariant
                k <= count == state.lines@.len(),
                across@ == line_minors(state.lines@).take(k as int),
            decreases count - k,
        {
            across.push(state.lines[k].minor);
            proof {
                assert(across@ =~= line_minors(state.lines@).take(k + 1));
            }
            k += 1;
        }
        proof {
            assert(across@ =~= line_minors(state.lines@));
        }
        state.line_offsets = self.align_content.layout(&across, minor, gap_minor);
        let mut positions: Vec<Vector> = Vec::new();
        let mut k: usize = 0;
        while k < count
            invariant
                k <= count == state.lines@.len(),
                n == state.majors@.len() == state.minors@.len(),
                state.lines == old(state).lines,
                state.majors == old(state).majors,
                state.minors == old(state).minors,
                lines_partition(state.lines@, n as int),
                size == self.stack_size(state.lines@, space),
                (major, minor) == self.axis.spec_unpack(size),
                (gap_major, gap_minor) == self.spec_gaps(),
                state.line_offsets@.len() == count,
                forall|j: int|
                    0 <= j < count ==> #[trigger] state.line_offsets@[j] == self.line_offset(
                        state.lines@,
                        size,
                        j,
                    ),
                k < count ==> positions@.len() == state.lines@[k as int].start,
                k == count ==> positions@.len() == n,
                forall|j: int, i: int|
                    0 <= j < k && state.lines@[j].start <= i < state.lines@[j].end
                        ==> positions@[i] == #[trigger] self.child_position(
                        state.lines@,
                        state.majors@,
                        state.minors@,
                        size,
                        j,
                        i,
                    ),
            decreases count - k,
        {
            let line = state.lines[k];
            let line_offset = state.line_offsets[k];
            proof {
                assert(state.lines@[k as int].start <= state.lines@[k as int].end);
                lemma_line_ends_in_bounds(state.lines@, n as int, k as int);
            }
            let mut child_majors: Vec<Fixed> = Vec::new();
            let mut i: usize = line.start;
            while i < line.end
                invariant
                    line.start <= i <= line.end <= n == state.majors@.len(),
                    child_majors@ == state.majors@.subrange(line.start as int, i as int),
                decreases line.end - i,
            {
                child_majors.push(state.majors[i]);
                proof {
                    assert(child_majors@ =~= state.majors@.subrange(line.start as int, i + 1));
                }
                i += 1;
            }
            let offsets = self.justify_content.layout(&child_majors, major, gap_major);
            let ghost placed = positions@;
            let mut index: usize = 0;
            while index < line.end - line.start
                invariant
                    index <= line.end - line.start,
                    line.start <= line.end <= n == state.minors@.len(),
                    line == state.lines@[k as int],
                    k < count == state.lines@.len(),
                    offsets@.len() == line.end - line.start,
                    child_majors@ == state.majors@.subrange(line.start as int, line.end as int),
                    forall|j: int|
                        0 <= j < offsets@.len() ==> #[trigger] offsets@[j]
                            == self.justify_content.spec_offset(
                            child_majors@,
                            major,
                            gap_major,
                            j as nat,
                        ),
                    (major, minor) == self.axis.spec_unpack(size),
                    (gap_major, gap_minor) == self.spec_gaps(),
                    line_offset == self.line_offset(state.lines@, size, k as int),
                    positions@.len() == line.start + index,
                    positions@.take(line.start as int) == placed,
                    placed.len() == line.start,
                    forall|i: int|
                        line.start <= i < line.start + index ==> positions@[i]
                            == #[trigger] self.child_position(
                            state.lines@,
                            state.majors@,
                            state.minors@,
                            size,
                            k as int,
                            i,
                        ),
                decreases line.end - line.start - index,
            {
                let align = self.align_items.align(line.minor, state.minors[line.start + index]);
                let at = self.axis.pack(offsets[index], line_offset.plus(align));
                positions.push(Vector { x: at.width, y: at.height });
                proof {
                    assert(positions@.take(line.start as int) =~= placed);
                }
                index += 1;
            }
            proof {
                assert forall|j: int, i: int|
                    0 <= j < k + 1 && state.lines@[j].start <= i < state.lines@[j].end
                        implies positions@[i] == #[trigger] self.child_position(
                    state.lines@,
                    state.majors@,
                    state.minors@,
                    size,
                    j,
                    i,
                ) by {
                    if j < k {
                        lemma_lines_in_order(state.lines@, n as int, j, k as int);
                        assert(positions@[i] == positions@.take(line.start as int)[i]);
                    }
                }
            }
            k += 1;
        }
        (size, positions)
    }
}

/// A line ends no later than the views do.
pub proof fn lemma_line_ends_in_bounds(lines: Seq<StackLine>, n: int, k: int)
    requires
        lines_partition(lines, n),
        0 <= k < lines.len(),
    ensures
        lines[k].end <= n,
    decreases lines.len() - k,
{
    if k < lines.len() - 1 {
        lemma_line_ends_in_bounds(lines, n, k + 1);
        assert(lines[k].end == lines[k + 1].start);
        assert(lines[k + 1].start <= lines[k + 1].end);
    }
}

/// An earlier line ends no later than a later line starts.
pub proof fn lemma_lines_in_order(lines: Seq<StackLine>, n: int, j: int, k: int)
    requires
        lines_partition(lines, n),
        0 <= j < k < lines.len(),
    ensures
        lines[j].end <= lines[k].start,
    decreases k - j,
{
    if j + 1 < k {
        lemma_lines_in_order(lines, n, j + 1, k);
        assert(lines[j].end == lines[j + 1].start);
        assert(lines[j + 1].start <= lines[j + 1].end);
    } else {
        assert(lines[j].end == lines[j + 1].start);
    }
}

} // verus!
