use ori_core::layout::fixed::{Fixed, LIMIT};
use ori_core::layout::rect::Size;
use ori_core::layout::space::{clamp, count, count_after, total, Align, Axis, Justify, Space};
use ori_core::layout::vector::Vector;
use ori_core::views::flex::{flex, Flex};
use ori_core::views::stack::{hstack, vstack, Child, Stack, StackLine, StackState};

fn fx(n: i32) -> Fixed {
    Fixed::from_int(n)
}

fn size(w: i32, h: i32) -> Size {
    Size::new(fx(w), fx(h))
}

fn fixed(w: i32, h: i32) -> Child {
    Child { size: size(w, h), flex: Fixed::zero() }
}

fn flexible(w: i32, h: i32, share: i32) -> Child {
    Child { size: size(w, h), flex: fx(share) }
}

fn at(x: i32, y: i32) -> Vector {
    Vector::new(fx(x), fx(y))
}

fn line(start: usize, end: usize, major: i32, minor: i32, flex_sum: i32) -> StackLine {
    StackLine { start, end, major: fx(major), minor: fx(minor), flex_sum: fx(flex_sum) }
}

#[test]
fn axes_pack_and_unpack() {
    assert_eq!(Axis::Horizontal.unpack(size(3, 4)), (fx(3), fx(4)));
    assert_eq!(Axis::Vertical.unpack(size(3, 4)), (fx(4), fx(3)));
    assert_eq!(Axis::Horizontal.pack(fx(3), fx(4)), size(3, 4));
    assert_eq!(Axis::Vertical.pack(fx(3), fx(4)), size(4, 3));
}

#[test]
fn spaces() {
    let u = Space::unbounded();
    assert_eq!(u.min, size(0, 0));
    assert_eq!(u.max.width.bits, LIMIT);
    assert_eq!(u.fit(size(3, 4)), size(3, 4));
    let s = Space::new(size(10, 10), size(20, 30));
    assert_eq!(s.fit(size(3, 40)), size(10, 30));
    assert_eq!(s.fit(size(15, 15)), size(15, 15));
    assert_eq!(Space::from_size(size(5, 6)).fit(size(1, 100)), size(5, 6));
    assert_eq!(u.constrain(s), s);
    assert_eq!(Space::from_size(size(5, 50)).constrain(s), Space::from_size(size(10, 30)));
    assert_eq!(clamp(fx(5), fx(1), fx(3)), fx(3));
    assert_eq!(clamp(fx(0), fx(1), fx(3)), fx(1));
    assert_eq!(clamp(fx(2), fx(1), fx(3)), fx(2));
    assert_eq!(clamp(fx(2), fx(5), fx(3)), fx(5));
    assert_eq!(count(3), fx(3));
    assert_eq!(count_after(3), fx(4));
    assert_eq!(total(&vec![fx(1), fx(2), fx(3)]), fx(6));
    assert_eq!(total(&vec![]), fx(0));
}

#[test]
fn alignment() {
    assert_eq!(Align::Start.align(fx(10), fx(4)), fx(0));
    assert_eq!(Align::Center.align(fx(10), fx(4)), fx(3));
    assert_eq!(Align::End.align(fx(10), fx(4)), fx(6));
    assert_eq!(Align::Stretch.align(fx(10), fx(4)), fx(0));
    assert!(Align::Stretch.is_stretch());
    assert!(!Align::Center.is_stretch());
}

#[test]
fn justification() {
    let sizes = vec![fx(10), fx(20), fx(30)];
    let room = fx(100);
    let gap = fx(5);
    assert_eq!(Justify::Start.layout(&sizes, room, gap), vec![fx(0), fx(15), fx(40)]);
    assert_eq!(Justify::End.layout(&sizes, room, gap), vec![fx(30), fx(45), fx(70)]);
    assert_eq!(Justify::Center.layout(&sizes, room, gap), vec![fx(15), fx(30), fx(55)]);
    assert_eq!(Justify::SpaceBetween.layout(&sizes, room, gap), vec![fx(0), fx(30), fx(70)]);
    assert_eq!(Justify::SpaceEvenly.layout(&sizes, room, gap), vec![fx(10), fx(30), fx(60)]);
    let around = Justify::SpaceAround.layout(&sizes, room, gap);
    let third = Fixed::from_int(40).over(fx(3));
    let lead = third.times(Fixed::from_ratio(1, 2));
    assert_eq!(around[0], lead);
    assert_eq!(around[1], lead.plus(fx(10)).plus(third));
    assert_eq!(around[2], lead.plus(fx(10)).plus(third).plus(fx(20)).plus(third));
    assert!(Justify::Center.layout(&vec![], room, gap).is_empty());
    assert_eq!(Justify::SpaceBetween.layout(&vec![fx(10)], room, gap), vec![fx(0)]);
    assert_eq!(Justify::Center.layout(&vec![fx(10)], room, gap), vec![fx(45)]);
}

#[test]
fn builders() {
    let s: Stack<&str> = Stack::new(Axis::Vertical, "content");
    assert_eq!(s.content, "content");
    assert_eq!(s.space, Space::unbounded());
    assert_eq!(s.axis, Axis::Vertical);
    assert!(!s.wrap);
    assert_eq!(s.justify_content, Justify::Start);
    assert_eq!(s.align_items, Align::Center);
    assert_eq!(s.align_content, Justify::Start);
    assert_eq!((s.column_gap, s.row_gap), (fx(0), fx(0)));
    assert_eq!(hstack("x").axis, Axis::Horizontal);
    assert_eq!(vstack("x").axis, Axis::Vertical);
    assert_eq!(Stack::hstack("x").axis, Axis::Horizontal);
    assert_eq!(Stack::vstack("x").axis, Axis::Vertical);
    let s = hstack("x")
        .wrap(true)
        .axis(Axis::Vertical)
        .justify_content(Justify::End)
        .align_items(Align::Stretch)
        .align_content(Justify::SpaceAround)
        .gap(fx(3))
        .row_gap(fx(4));
    assert!(s.wrap);
    assert_eq!(s.axis, Axis::Vertical);
    assert_eq!(s.justify_content, Justify::End);
    assert_eq!(s.align_items, Align::Stretch);
    assert_eq!(s.align_content, Justify::SpaceAround);
    assert_eq!((s.column_gap, s.row_gap), (fx(3), fx(4)));
    assert_eq!(hstack("x").column_gap(fx(7)).column_gap, fx(7));
    assert_eq!(hstack("x").column_gap(fx(7)).row_gap, fx(0));
    let s = hstack("x").space(Space::new(size(1, 2), size(3, 4)));
    assert_eq!(s.space, Space::new(size(1, 2), size(3, 4)));
    assert_eq!(s.size(size(9, 9)).space, Space::from_size(size(9, 9)));
    let s = hstack("x").space(Space::new(size(1, 2), size(3, 4)));
    assert_eq!(s.width(fx(7)).space, Space::new(size(7, 2), size(7, 4)));
    let s = hstack("x").space(Space::new(size(1, 2), size(3, 4)));
    assert_eq!(s.height(fx(7)).space, Space::new(size(1, 7), size(3, 7)));
    let s = hstack("x").space(Space::new(size(1, 2), size(3, 4)));
    let s = s.min_width(fx(5)).min_height(fx(6)).max_width(fx(7)).max_height(fx(8));
    assert_eq!(s.space, Space::new(size(5, 6), size(7, 8)));
    assert_eq!(s.room(Space::new(size(0, 0), size(6, 6))), Space::new(size(5, 6), size(6, 6)));
}

#[test]
fn flexible_views() {
    let f = flex(fx(2), "x");
    assert_eq!((f.content, f.flex), ("x", fx(2)));
    let g = Flex::new(fx(2), "y");
    assert!(!g.rebuild(&f));
    assert!(Flex::new(fx(3), "y").rebuild(&f));
    assert!(flexible(1, 1, 1).is_flex());
    assert!(!fixed(1, 1).is_flex());
}

#[test]
fn the_state_keeps_the_extents() {
    let mut s = StackState::new(2);
    assert!(s.lines.is_empty() && s.line_offsets.is_empty());
    assert_eq!(s.majors, vec![fx(0), fx(0)]);
    assert_eq!(s.minors, vec![fx(0), fx(0)]);
    s.majors[1] = fx(5);
    s.resize(4);
    assert_eq!(s.majors, vec![fx(0), fx(5), fx(0), fx(0)]);
    s.resize(1);
    assert_eq!(s.majors, vec![fx(0)]);
    assert_eq!(s.minors, vec![fx(0)]);
    assert_eq!(s.major(), fx(0));
    s.lines = vec![line(0, 1, 30, 10, 0), line(1, 3, 50, 20, 0), line(3, 4, 40, 5, 0)];
    assert_eq!(s.major(), fx(50));
    assert_eq!(s.minor(fx(2)), fx(39));
    s.lines.truncate(1);
    assert_eq!(s.minor(fx(2)), fx(10));
}

#[test]
fn without_wrapping_there_is_one_line() {
    let stack = hstack(()).gap(fx(5));
    let children = vec![fixed(10, 5), flexible(20, 8, 1), fixed(30, 3)];
    let mut state = StackState::new(3);
    assert_eq!(stack.content_space(fx(50)), Space::new(size(0, 0), Size::new(Fixed::from_bits(LIMIT), fx(50))));
    stack.measure_fixed(&mut state, &children, fx(5), fx(50), fx(6));
    // The line is as long as the views and the gaps between them, though
    // that is more than the room; across it is cut to the room.
    assert_eq!(state.lines, vec![line(0, 3, 70, 6, 1)]);
    // The view that grows and shrinks is cut to the room across, the
    // others keep their size.
    assert_eq!(state.majors, vec![fx(10), fx(20), fx(30)]);
    assert_eq!(state.minors, vec![fx(5), fx(6), fx(3)]);
    stack.fit_single_line(&mut state, fx(10), fx(20));
    assert_eq!(state.lines, vec![line(0, 3, 70, 10, 1)]);

    let empty: Vec<Child> = vec![];
    let mut none = StackState::new(0);
    stack.measure_fixed(&mut none, &empty, fx(5), fx(50), fx(6));
    assert_eq!(none.lines, vec![line(0, 0, 0, 0, 0)]);
}

#[test]
fn a_wrapping_stack_breaks_its_lines_at_the_room() {
    let stack = hstack(()).wrap(true);
    assert_eq!(stack.content_space(fx(50)), Space::unbounded());
    let children = vec![fixed(30, 5), fixed(30, 8), fixed(30, 3), fixed(60, 4), fixed(10, 9)];
    let mut state = StackState::new(5);
    stack.measure_fixed(&mut state, &children, fx(10), fx(80), fx(100));
    // 30 + 10 + 30 fits; with the third view the line would be too long,
    // and so would the next with the fourth; the fifth just fits behind it.
    assert_eq!(
        state.lines,
        vec![line(0, 2, 70, 8, 0), line(2, 3, 30, 3, 0), line(3, 5, 80, 9, 0)]
    );
    let mut kept = state.lines.clone();
    stack.fit_single_line(&mut state, fx(50), fx(60));
    assert_eq!(state.lines, kept);
    kept.clear();
    // A view wider than the room leaves an empty line before it.
    let mut wide = StackState::new(1);
    stack.measure_fixed(&mut wide, &vec![fixed(100, 5)], fx(10), fx(80), fx(100));
    assert_eq!(wide.lines, vec![line(0, 0, 0, 0, 0), line(0, 1, 100, 5, 0)]);
    assert_eq!(Stack::<()>::find_line(&wide, 0), Some(1));
    assert_eq!(Stack::<()>::find_line(&wide, 1), None);
    assert_eq!(Stack::<()>::find_line(&state, 2), Some(1));
    assert_eq!(Stack::<()>::find_line(&state, 4), Some(2));
}

#[test]
fn views_share_what_the_line_lacks_by_their_shares() {
    let stack = hstack(());
    let children = vec![fixed(10, 5), flexible(20, 5, 1), flexible(20, 5, 3)];
    let mut state = StackState::new(3);
    stack.measure_fixed(&mut state, &children, fx(0), fx(200), fx(40));
    assert_eq!(state.lines, vec![line(0, 3, 50, 5, 4)]);
    // The line is to be 90 long at least: 40 are shared out, 10 a share.
    let spaces = stack.measure_flex(&state, &children, fx(90), fx(200), fx(40));
    assert_eq!(
        spaces,
        vec![
            None,
            Some(Space::new(size(30, 0), size(30, 40))),
            Some(Space::new(size(50, 0), size(50, 40))),
        ]
    );
    // Too long by 30 for a room of 20, the views shrink, and past nothing.
    let spaces = stack.measure_flex(&state, &children, fx(0), fx(20), fx(40));
    let shrink = fx(-30).over(fx(4));
    assert_eq!(
        spaces[1],
        Some(Space::new(
            Size::new(fx(20).plus(shrink), fx(0)),
            Size::new(fx(20).plus(shrink), fx(40))
        ))
    );
    assert_eq!(spaces[2].unwrap().min.width, fx(20).plus(shrink.times(fx(3))));
    // A line that fits is left alone.
    let spaces = stack.measure_flex(&state, &children, fx(10), fx(200), fx(40));
    assert_eq!(spaces[1], Some(Space::new(size(20, 0), size(20, 40))));
    // Stretched across, every view is laid out again, as far across as
    // its line.
    let stretched = hstack(()).align_items(Align::Stretch);
    let spaces = stretched.measure_flex(&state, &children, fx(90), fx(200), fx(40));
    assert_eq!(
        spaces,
        vec![
            Some(Space::from_size(size(10, 5))),
            Some(Space::from_size(size(30, 5))),
            Some(Space::from_size(size(50, 5))),
        ]
    );

    let sizes = vec![None, Some(size(30, 7)), Some(size(45, 9))];
    stack.apply_flex(&mut state, &sizes);
    assert_eq!(state.majors, vec![fx(10), fx(30), fx(45)]);
    assert_eq!(state.minors, vec![fx(5), fx(7), fx(9)]);
    assert_eq!(state.lines, vec![line(0, 3, 85, 5, 4)]);
}

#[test]
fn a_vertical_stack_measures_along_its_height() {
    let stack = vstack(());
    let children = vec![fixed(10, 5), flexible(20, 500, 1)];
    let mut state = StackState::new(2);
    stack.measure_fixed(&mut state, &children, fx(2), fx(100), fx(15));
    assert_eq!(state.majors, vec![fx(5), fx(100)]);
    assert_eq!(state.minors, vec![fx(10), fx(15)]);
    assert_eq!(state.lines, vec![line(0, 2, 107, 15, 1)]);
    let spaces = stack.measure_flex(&state, &children, fx(0), fx(100), fx(15));
    assert_eq!(spaces[0], None);
    assert_eq!(spaces[1], Some(Space::new(size(0, 93), size(15, 93))));
}

#[test]
fn views_are_placed_along_their_lines() {
    let stack = hstack(()).gap(fx(5));
    let mut state = StackState::new(3);
    state.lines = vec![line(0, 3, 70, 10, 0)];
    state.majors = vec![fx(10), fx(20), fx(30)];
    state.minors = vec![fx(10), fx(4), fx(6)];
    let space = Space::new(size(0, 0), size(100, 50));
    let (s, positions) = stack.layout(&mut state, space);
    assert_eq!(s, size(70, 10));
    assert_eq!(state.line_offsets, vec![fx(0)]);
    // Centered across the line.
    assert_eq!(positions, vec![at(0, 0), at(15, 3), at(40, 2)]);

    // In a room that asks for more, the views are justified in it.
    let stack = hstack(()).gap(fx(5)).justify_content(Justify::End).align_items(Align::End);
    let (s, positions) = stack.layout(&mut state, Space::from_size(size(100, 50)));
    assert_eq!(s, size(100, 50));
    assert_eq!(positions, vec![at(30, 0), at(45, 6), at(70, 4)]);

    // Lines lie one after the other across the stack.
    let stack = vstack(()).wrap(true).gap(fx(2)).align_items(Align::Start);
    let mut state = StackState::new(4);
    state.lines = vec![line(0, 2, 30, 10, 0), line(2, 2, 0, 0, 0), line(2, 4, 25, 8, 0)];
    state.majors = vec![fx(10), fx(18), fx(5), fx(18)];
    state.minors = vec![fx(10), fx(4), fx(8), fx(6)];
    let (s, positions) = stack.layout(&mut state, Space::new(size(0, 0), size(500, 500)));
    // Across: 10 + 0 + 8 and two gaps; along: the longest line.
    assert_eq!(s, size(22, 30));
    assert_eq!(state.line_offsets, vec![fx(0), fx(12), fx(14)]);
    assert_eq!(positions, vec![at(0, 0), at(0, 12), at(14, 0), at(14, 7)]);
}
