use pfinder::buffer::{Buffer, Cell, Color};

fn blank() -> Cell {
    Cell { ch: ' ', fg: Color::Black, bg: Color::Black }
}

#[test]
fn new_buffer_is_blank() {
    let b = Buffer::new(4, 3);
    assert_eq!((b.width, b.height), (4, 3));
    assert_eq!(b.cells.len(), 3);
    assert!(b.cells.iter().all(|r| r.len() == 4 && r.iter().all(|c| *c == blank())));
    assert_eq!(Cell::empty(), blank());
}

#[test]
fn empty_buffer_keeps_one_cell_of_storage() {
    let b = Buffer::new(0, 0);
    assert_eq!((b.width, b.height), (0, 0));
    assert_eq!(b.cells.len(), 1);
    assert_eq!(b.cells[0].len(), 1);
}

#[test]
fn put_writes_inside_and_drops_outside() {
    let mut b = Buffer::new(3, 2);
    b.put(2, 1, 'x', Color::Red, Color::White);
    assert_eq!(b.cells[1][2], Cell { ch: 'x', fg: Color::Red, bg: Color::White });
    let before = b.cells.clone();
    b.put(3, 0, 'y', Color::Red, Color::White);
    b.put(0, 2, 'y', Color::Red, Color::White);
    b.put(usize::MAX, usize::MAX, 'y', Color::Red, Color::White);
    assert_eq!(b.cells, before);
}

#[test]
fn put_on_empty_buffer_changes_nothing() {
    let mut b = Buffer::new(0, 0);
    b.put(0, 0, 'z', Color::Red, Color::Red);
    assert_eq!(b.cells[0][0], blank());
}

#[test]
fn put_str_writes_characters_and_clips() {
    let mut b = Buffer::new(5, 1);
    b.put_str(2, 0, "a█cdef", Color::AnsiValue(7), Color::Black);
    let row: String = b.cells[0].iter().map(|c| c.ch).collect();
    assert_eq!(row, "  a█c");
    assert_eq!(b.cells[0][3].fg, Color::AnsiValue(7));
    assert_eq!(b.cells[0][1], blank());
}

#[test]
fn put_chars_matches_put_str() {
    let mut a = Buffer::new(6, 2);
    let mut b = Buffer::new(6, 2);
    a.put_str(1, 1, "héllo!!", Color::White, Color::Red);
    b.put_chars(1, 1, &"héllo!!".chars().collect(), Color::White, Color::Red);
    assert_eq!(a.cells, b.cells);
}
