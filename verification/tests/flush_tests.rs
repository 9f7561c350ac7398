use pfinder::buffer::{Buffer, Cell, Color};
use pfinder::flush::{frame_ops, DrawOp};

/// A terminal model: applies the output steps to a screen.
fn apply(screen: &mut Vec<Vec<Cell>>, ops: &[DrawOp]) {
    let (mut row, mut col) = (usize::MAX, usize::MAX);
    let (mut fg, mut bg) = (Color::Reset, Color::Reset);
    for op in ops {
        match *op {
            DrawOp::MoveTo(r, c) => {
                row = r - 1;
                col = c - 1;
            }
            DrawOp::Foreground(c) => fg = c,
            DrawOp::Background(c) => bg = c,
            DrawOp::Print(ch) => {
                screen[row][col] = Cell { ch, fg, bg };
                col += 1;
            }
        }
    }
}

fn sample(w: usize, h: usize, seed: u32) -> Buffer {
    let mut b = Buffer::new(w, h);
    for y in 0..h {
        for x in 0..w {
            let v = (x as u32 * 7 + y as u32 * 13 + seed) % 5;
            if v < 2 {
                b.put(x, y, ['a', '█'][v as usize], Color::AnsiValue(v as u8 + 1), Color::Black);
            }
        }
    }
    b
}

#[test]
fn identical_frames_need_no_output() {
    let a = sample(6, 4, 1);
    let b = sample(6, 4, 1);
    assert!(frame_ops(&a, &Some(b)).is_empty());
}

#[test]
fn first_frame_redraws_everything() {
    let a = Buffer::new(3, 2);
    let ops = frame_ops(&a, &None);
    let blank = Cell::empty();
    let expected = vec![
        DrawOp::MoveTo(1, 1),
        DrawOp::Foreground(Color::Black),
        DrawOp::Background(Color::Black),
        DrawOp::Print(blank.ch),
        DrawOp::Print(blank.ch),
        DrawOp::Print(blank.ch),
        DrawOp::MoveTo(2, 1),
        DrawOp::Print(blank.ch),
        DrawOp::Print(blank.ch),
        DrawOp::Print(blank.ch),
    ];
    assert_eq!(ops, expected);
}

#[test]
fn single_change_moves_and_prints() {
    let prev = Buffer::new(4, 3);
    let mut curr = Buffer::new(4, 3);
    curr.put(2, 1, 'x', Color::Red, Color::Black);
    let ops = frame_ops(&curr, &Some(prev));
    assert_eq!(
        ops,
        vec![DrawOp::MoveTo(2, 3), DrawOp::Foreground(Color::Red), DrawOp::Background(Color::Black), DrawOp::Print('x')]
    );
}

#[test]
fn neighbouring_changes_share_a_cursor_move() {
    let prev = Buffer::new(4, 1);
    let mut curr = Buffer::new(4, 1);
    curr.put(1, 0, 'a', Color::White, Color::Black);
    curr.put(2, 0, 'b', Color::White, Color::Black);
    let ops = frame_ops(&curr, &Some(prev));
    assert_eq!(
        ops,
        vec![
            DrawOp::MoveTo(1, 2),
            DrawOp::Foreground(Color::White),
            DrawOp::Background(Color::Black),
            DrawOp::Print('a'),
            DrawOp::Print('b'),
        ]
    );
}

#[test]
fn output_turns_the_old_screen_into_the_new_one() {
    for seed in 0..5 {
        let prev = sample(7, 5, seed);
        let curr = sample(7, 5, seed + 3);
        let mut screen = prev.cells.clone();
        let ops = frame_ops(&curr, &Some(prev));
        apply(&mut screen, &ops);
        assert_eq!(screen, curr.cells);
    }
}

#[test]
fn resized_frame_redraws_outside_the_old_area() {
    let prev = sample(3, 2, 0);
    let curr = sample(5, 4, 0);
    let mut screen = vec![vec![Cell { ch: '\0', fg: Color::Reset, bg: Color::Reset }; 5]; 4];
    for y in 0..2 {
        for x in 0..3 {
            screen[y][x] = prev.cells[y][x];
        }
    }
    let ops = frame_ops(&curr, &Some(prev));
    apply(&mut screen, &ops);
    assert_eq!(screen, curr.cells);
}
