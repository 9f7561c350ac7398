use pfinder::buffer::{Buffer, Cell, Color};
use pfinder::screens::{render_gameover, render_victory};

fn row_text(b: &Buffer, y: usize) -> String {
    b.cells[y].iter().map(|c| c.ch).collect()
}

#[test]
fn gameover_background_is_a_red_chessboard() {
    let mut b = Buffer::new(80, 24);
    render_gameover(&mut b);
    assert_eq!(b.cells[0][0], Cell { ch: '▒', fg: Color::AnsiValue(124), bg: Color::Black });
    assert_eq!(b.cells[0][1], Cell { ch: ' ', fg: Color::AnsiValue(124), bg: Color::Black });
    assert_eq!(b.cells[23][79], Cell { ch: '▒', fg: Color::AnsiValue(124), bg: Color::Black });
}

#[test]
fn gameover_text_is_centred_by_byte_length() {
    let mut b = Buffer::new(80, 24);
    render_gameover(&mut b);
    // 15 lines over 24 rows start at row (24 - 17) / 2 = 3
    let hint = "  You died or ran out of time.";
    let y = 3 + 12;
    let sx = (80 - hint.len()) / 2;
    assert_eq!(sx, 25);
    assert_eq!(&row_text(&b, y)[..].chars().skip(25).take(30).collect::<String>(), hint);
    assert_eq!(b.cells[y][26].fg, Color::AnsiValue(244));
    assert_eq!(b.cells[y][24], Cell { ch: ' ', fg: Color::AnsiValue(124), bg: Color::Black });
    // the banner line is 84 bytes long, wider than the screen: it starts at column 0
    assert_eq!(b.cells[3][2], Cell { ch: '█', fg: Color::AnsiValue(196), bg: Color::Black });
    assert_eq!(b.cells[3][0], Cell { ch: ' ', fg: Color::AnsiValue(196), bg: Color::Black });
    let keys = "  [ R ] New Game     [ Q ] Quit";
    assert_eq!(row_text(&b, 3 + 14).chars().skip(24).take(31).collect::<String>(), keys);
}

#[test]
fn gameover_on_a_wide_screen() {
    let mut b = Buffer::new(100, 30);
    render_gameover(&mut b);
    // start row (30 - 17) / 2 = 6; banner of 84 bytes starts at column 8
    assert_eq!(b.cells[6][10], Cell { ch: '█', fg: Color::AnsiValue(196), bg: Color::Black });
    assert_eq!(b.cells[6][9], Cell { ch: ' ', fg: Color::AnsiValue(196), bg: Color::Black });
    assert_eq!(b.cells[6][7], Cell { ch: ' ', fg: Color::AnsiValue(124), bg: Color::Black });
}

#[test]
fn gameover_on_tiny_screens() {
    let mut b = Buffer::new(0, 0);
    render_gameover(&mut b);
    assert_eq!(b.cells[0][0], Cell::empty());
    let mut c = Buffer::new(3, 2);
    render_gameover(&mut c);
    assert_eq!(c.cells.len(), 2);
}

#[test]
fn victory_shows_time_and_ammo() {
    let mut b = Buffer::new(80, 24);
    render_victory(&mut b, 74, 12);
    let stats = "  Time remaining: 74s   Ammo left: 12";
    // 11 lines start at (24 - 13) / 2 = 5; the statistics are line 8
    let y = 5 + 8;
    let sx = (80 - stats.len()) / 2;
    assert_eq!(sx, 21);
    assert_eq!(row_text(&b, y).chars().skip(sx).take(stats.len()).collect::<String>(), stats);
    assert_eq!(b.cells[y][sx + 5].fg, Color::AnsiValue(220));
    assert_eq!(b.cells[0][0], Cell { ch: '▒', fg: Color::AnsiValue(28), bg: Color::Black });
    let line = "  You escaped the maze!";
    assert_eq!(row_text(&b, 5 + 6).chars().skip((80 - line.len()) / 2).take(line.len()).collect::<String>(), line);
}

#[test]
fn victory_with_negative_and_large_numbers() {
    let mut b = Buffer::new(120, 24);
    render_victory(&mut b, 1234567, -5);
    let stats = "  Time remaining: 1234567s   Ammo left: -5";
    let sx = (120 - stats.len()) / 2;
    assert_eq!(row_text(&b, 13).chars().skip(sx).take(stats.len()).collect::<String>(), stats);
}
