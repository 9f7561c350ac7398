use vstd::prelude::*;
use vstd::utf8::encode_utf8;

use vstd::utf8::{is_ascii_chars, is_ascii_chars_encode_utf8};

use crate::buffer::{Buffer, Cell, Color};
use crate::text::{ascii, decimal, lemma_u64_decimal_len, push_decimal, push_signed, push_str, signed_decimal};

verus! {

/// `a - b`, or 0 when `b` is larger.
pub open spec fn sat_sub(a: int, b: int) -> int {
    if a >= b {
        a - b
    } else {
        0
    }
}

/// The length in bytes of the UTF-8 encoding of `s`.
pub open spec fn byte_len(s: Seq<char>) -> int {
    encode_utf8(s).len() as usize as int
}

/// The background pattern of the end screens: a chessboard of '▒' and
/// blank cells.
pub open spec fn chess_cell(x: int, y: int, fg: Color) -> Cell {
    Cell { ch: if (x + y) % 2 == 0 { '▒' } else { ' ' }, fg, bg: Color::Black }
}

/// Cell `(x, y)` of a `w × h` text card over a chessboard: the first `k`
/// of `lines` are stacked vertically centred, each horizontally centred by
/// its length in bytes, on black.
pub open spec fn card_cell(
    w: usize,
    h: usize,
    lines: Seq<Seq<char>>,
    colors: Seq<Color>,
    pattern: Color,
    k: int,
    x: int,
    y: int,
) -> Cell {
    let start = sat_sub(h as int, lines.len() + 2int) / 2;
    let i = y - start;
    if 0 <= i < k && i < lines.len() && sat_sub(w as int, byte_len(lines[i])) / 2 <= x
        < sat_sub(w as int, byte_len(lines[i])) / 2 + lines[i].len() {
        Cell { ch: lines[i][x - sat_sub(w as int, byte_len(lines[i])) / 2], fg: colors[i], bg: Color::Black }
    } else {
        chess_cell(x, y, pattern)
    }
}

/// `b` shows the first `k` lines of a text card inside the drawing area of
/// `b0` and is `b0` elsewhere.
pub open spec fn shows_card(
    b: Buffer,
    b0: Buffer,
    lines: Seq<Seq<char>>,
    colors: Seq<Color>,
    pattern: Color,
    k: int,
) -> bool {
    &&& b.wf()
    &&& b.same_shape(b0)
    &&& forall|x: int, y: int| #[trigger] b.in_storage(x, y) ==> b.at(x, y) == if b0.in_area(x, y) {
        card_cell(b0.width, b0.height, lines, colors, pattern, k, x, y)
    } else {
        b0.at(x, y)
    }
}

/// Fills the drawing area with the chessboard pattern.
fn fill_chessboard(buf: &mut Buffer, fg: Color)
    requires
        old(buf).wf(),
    ensures
        final(buf).wf(),
        final(buf).same_shape(*old(buf)),
        forall|x: int, y: int| #[trigger] final(buf).in_storage(x, y) ==> final(buf).at(x, y) == if old(buf).in_area(x, y) {
            chess_cell(x, y, fg)
        } else {
            old(buf).at(x, y)
        },
{
    let (w, h) = (buf.width, buf.height);
    let ghost b0 = *buf;
    let mut y: usize = 0;
    while y < h
        invariant
            y <= h,
            w == b0.width,
            h == b0.height,
            buf.wf(),
            buf.same_shape(b0),
            forall|xx: int, yy: int| #[trigger] buf.in_storage(xx, yy) ==> buf.at(xx, yy) == if b0.in_area(xx, yy) && yy < y {
                chess_cell(xx, yy, fg)
            } else {
                b0.at(xx, yy)
            },
        decreases h - y,
    {
        let mut x: usize = 0;
        while x < w
            invariant
                x <= w,
                y < h,
                w == b0.width,
                h == b0.height,
                buf.wf(),
                buf.same_shape(b0),
                forall|xx: int, yy: int| #[trigger] buf.in_storage(xx, yy) ==> buf.at(xx, yy) == if b0.in_area(xx, yy) && (yy < y || (yy == y && xx < x)) {
                    chess_cell(xx, yy, fg)
                } else {
                    b0.at(xx, yy)
                },
            decreases w - x,
        {
            let ghost before = *buf;
            buf.put(x, y, if (x % 2 + y % 2) % 2 == 0 { '▒' } else { ' ' }, fg, Color::Black);
            assert forall|xx: int, yy: int| #[trigger] buf.in_storage(xx, yy) implies buf.at(xx, yy) == if b0.in_area(xx, yy) && (yy < y || (yy == y && xx < x + 1)) {
                chess_cell(xx, yy, fg)
            } else {
                b0.at(xx, yy)
            } by {
                assert(before.in_storage(xx, yy));
            }
            x = x + 1;
        }
        y = y + 1;
    }
}


/// The text of the game-over card.
pub open spec fn gameover_lines() -> Seq<Seq<char>> {
    seq![
        "  ██████   █████  ███    ███ ███████"@,
        " ██       ██   ██ ████  ████ ██     "@,
        " ██   ███ ███████ ██ ████ ██ █████  "@,
        " ██    ██ ██   ██ ██  ██  ██ ██     "@,
        "  ██████  ██   ██ ██      ██ ███████"@,
        ""@,
        "  ██████  ██    ██ ███████ ██████   "@,
        " ██    ██ ██    ██ ██      ██   ██  "@,
        " ██    ██ ██    ██ █████   ██████   "@,
        " ██    ██  ██  ██  ██      ██   ██  "@,
        "  ██████    ████   ███████ ██   ██  "@,
        ""@,
        "  You died or ran out of time."@,
        ""@,
        "  [ R ] New Game     [ Q ] Quit"@,
    ]
}

/// The colour of each line of the game-over card.
pub open spec fn gameover_colors() -> Seq<Color> {
    seq![
        Color::AnsiValue(196),
        Color::AnsiValue(203),
        Color::AnsiValue(203),
        Color::AnsiValue(203),
        Color::AnsiValue(196),
        Color::Black,
        Color::AnsiValue(196),
        Color::AnsiValue(203),
        Color::AnsiValue(203),
        Color::AnsiValue(203),
        Color::AnsiValue(196),
        Color::Black,
        Color::AnsiValue(244),
        Color::Black,
        Color::White,
    ]
}

proof fn lemma_gameover_lines_short()
    ensures
        gameover_lines().len() == 15,
        gameover_colors().len() == 15,
        forall|i: int| 0 <= i < 15 ==> (#[trigger] gameover_lines()[i]).len() <= 64,
{
    reveal_strlit("");
    reveal_strlit("  You died or ran out of time.");
    reveal_strlit("  [ R ] New Game     [ Q ] Quit");
    reveal_strlit("  ██████    ████   ███████ ██   ██  ");
    reveal_strlit("  ██████   █████  ███    ███ ███████");
    reveal_strlit("  ██████  ██    ██ ███████ ██████   ");
    reveal_strlit("  ██████  ██   ██ ██      ██ ███████");
    reveal_strlit(" ██       ██   ██ ████  ████ ██     ");
    reveal_strlit(" ██    ██  ██  ██  ██      ██   ██  ");
    reveal_strlit(" ██    ██ ██    ██ ██      ██   ██  ");
    reveal_strlit(" ██    ██ ██    ██ █████   ██████   ");
    reveal_strlit(" ██    ██ ██   ██ ██  ██  ██ ██     ");
    reveal_strlit(" ██   ███ ███████ ██ ████ ██ █████  ");
}

fn gameover_line(i: usize) -> (r: (&'static str, Color))
    requires
        i < 15,
    ensures
        r.0@ == gameover_lines()[i as int],
        r.1 == gameover_colors()[i as int],
{
    if i == 0 {
        ("  ██████   █████  ███    ███ ███████", Color::AnsiValue(196))
    } else if i == 1 {
        (" ██       ██   ██ ████  ████ ██     ", Color::AnsiValue(203))
    } else if i == 2 {
        (" ██   ███ ███████ ██ ████ ██ █████  ", Color::AnsiValue(203))
    } else if i == 3 {
        (" ██    ██ ██   ██ ██  ██  ██ ██     ", Color::AnsiValue(203))
    } else if i == 4 {
        ("  ██████  ██   ██ ██      ██ ███████", Color::AnsiValue(196))
    } else if i == 5 {
        ("", Color::Black)
    } else if i == 6 {
        ("  ██████  ██    ██ ███████ ██████   ", Color::AnsiValue(196))
    } else if i == 7 {
        (" ██    ██ ██    ██ ██      ██   ██  ", Color::AnsiValue(203))
    } else if i == 8 {
        (" ██    ██ ██    ██ █████   ██████   ", Color::AnsiValue(203))
    } else if i == 9 {
        (" ██    ██  ██  ██  ██      ██   ██  ", Color::AnsiValue(203))
    } else if i == 10 {
        ("  ██████    ████   ███████ ██   ██  ", Color::AnsiValue(196))
    } else if i == 11 {
        ("", Color::Black)
    } else if i == 12 {
        ("  You died or ran out of time.", Color::AnsiValue(244))
    } else if i == 13 {
        ("", Color::Black)
    } else {
        ("  [ R ] New Game     [ Q ] Quit", Color::White)
    }
}

/// Draws the game-over screen: a red chessboard with the "GAME OVER"
/// banner and the restart and quit hints centred on it.
pub fn render_gameover(buf: &mut Buffer)
    requires
        old(buf).wf(),
    ensures
        shows_card(*final(buf), *old(buf), gameover_lines(), gameover_colors(), Color::AnsiValue(124), 15),
{
    let ghost b0 = *buf;
    let (w, h) = (buf.width, buf.height);
    fill_chessboard(buf, Color::AnsiValue(124));
    proof {
        lemma_gameover_lines_short();
    }
    let n: usize = 15;
    let start_y = h.saturating_sub(n + 2) / 2;
    let mut i: usize = 0;
    while i < n
        invariant
            i <= n,
            n == 15,
            w == b0.width,
            h == b0.height,
            start_y == sat_sub(h as int, 17) / 2,
            gameover_lines().len() == 15,
            forall|j: int| 0 <= j < 15 ==> (#[trigger] gameover_lines()[j]).len() <= 64,
            shows_card(*buf, b0, gameover_lines(), gameover_colors(), Color::AnsiValue(124), i as int),
        decreases n - i,
    {
        let (line, fg) = gameover_line(i);
        let sx = w.saturating_sub(line.len()) / 2;
        let ghost before = *buf;
        buf.put_str(sx, start_y + i, line, fg, Color::Black);
        proof {
            lemma_card_row(*buf, before, b0, gameover_lines(), gameover_colors(), Color::AnsiValue(124), i as int, sx as int);
        }
        i = i + 1;
    }
}

/// Drawing line `i` of a card, centred by its byte length, extends a card
/// showing lines `0..i` to one showing lines `0..=i`.
proof fn lemma_card_row(
    b: Buffer,
    before: Buffer,
    b0: Buffer,
    lines: Seq<Seq<char>>,
    colors: Seq<Color>,
    pattern: Color,
    i: int,
    sx: int,
)
    requires
        0 <= i < lines.len(),
        shows_card(before, b0, lines, colors, pattern, i),
        sx == sat_sub(b0.width as int, byte_len(lines[i])) / 2,
        b.wf(),
        b.same_shape(before),
        forall|xx: int, yy: int| #[trigger] b.in_storage(xx, yy) ==>
            b.at(xx, yy) == if yy == sat_sub(b0.height as int, lines.len() + 2int) / 2 + i && sx <= xx < sx + lines[i].len()
                && before.in_area(xx, yy) {
                Cell { ch: lines[i][xx - sx], fg: colors[i], bg: Color::Black }
            } else {
                before.at(xx, yy)
            },
    ensures
        shows_card(b, b0, lines, colors, pattern, i + 1),
{
    assert forall|x: int, y: int| #[trigger] b.in_storage(x, y) implies b.at(x, y) == if b0.in_area(x, y) {
        card_cell(b0.width, b0.height, lines, colors, pattern, i + 1, x, y)
    } else {
        b0.at(x, y)
    } by {
        assert(before.in_storage(x, y));
    }
}


/// The statistics line of the victory card: the seconds left on the timer
/// and the rounds of ammunition left.
pub open spec fn victory_stats(secs: u64, ammo: i32) -> Seq<char> {
    "  Time remaining: "@ + decimal(secs as nat) + "s   Ammo left: "@ + signed_decimal(ammo as int)
}

/// The text of the victory card.
pub open spec fn victory_lines(secs: u64, ammo: i32) -> Seq<Seq<char>> {
    seq![
        " ██    ██ ██  ██████ ████████  ██████  ██████  ██    ██"@,
        "  ██  ██  ██ ██         ██    ██    ██ ██   ██  ██  ██ "@,
        "   ████   ██ ██         ██    ██    ██ ██████    ████  "@,
        "    ██    ██ ██         ██    ██    ██ ██   ██    ██   "@,
        "    ██    ██  ██████    ██     ██████  ██   ██    ██   "@,
        ""@,
        "  You escaped the maze!"@,
        ""@,
        victory_stats(secs, ammo),
        ""@,
        "  [ R ] New Game     [ Q ] Quit"@,
    ]
}

/// The colour of each line of the victory card.
pub open spec fn victory_colors() -> Seq<Color> {
    seq![
        Color::AnsiValue(46),
        Color::AnsiValue(83),
        Color::AnsiValue(83),
        Color::AnsiValue(83),
        Color::AnsiValue(46),
        Color::Black,
        Color::White,
        Color::Black,
        Color::AnsiValue(220),
        Color::Black,
        Color::White,
    ]
}

proof fn lemma_victory_lines_short(secs: u64, ammo: i32)
    ensures
        victory_lines(secs, ammo).len() == 11,
        victory_colors().len() == 11,
        forall|i: int| 0 <= i < 11 ==> (#[trigger] victory_lines(secs, ammo)[i]).len() <= 128,
        byte_len(victory_stats(secs, ammo)) == victory_stats(secs, ammo).len(),
{
    reveal_strlit("");
    reveal_strlit("    ██    ██  ██████    ██     ██████  ██   ██    ██   ");
    reveal_strlit("    ██    ██ ██         ██    ██    ██ ██   ██    ██   ");
    reveal_strlit("   ████   ██ ██         ██    ██    ██ ██████    ████  ");
    reveal_strlit("  You escaped the maze!");
    reveal_strlit("  [ R ] New Game     [ Q ] Quit");
    reveal_strlit("  ██  ██  ██ ██         ██    ██    ██ ██   ██  ██  ██ ");
    reveal_strlit(" ██    ██ ██  ██████ ████████  ██████  ██████  ██    ██");
    reveal_strlit("  Time remaining: ");
    reveal_strlit("s   Ammo left: ");
    lemma_u64_decimal_len(secs);
    let m: u64 = if ammo < 0 { (-(ammo as int)) as u64 } else { ammo as u64 };
    lemma_u64_decimal_len(m);
    let st = victory_stats(secs, ammo);
    assert(is_ascii_chars(st)) by {
        assert forall|i: int| 0 <= i < st.len() implies '\0' <= #[trigger] st[i] <= '\u{7f}' by {
            let a = "  Time remaining: "@;
            let d = decimal(secs as nat);
            let b = "s   Ammo left: "@;
            let e = signed_decimal(ammo as int);
            assert(a.len() == 18);
            assert(b.len() == 15);
            if i < a.len() {
                assert(st[i] == a[i]);
                assert(a[i] == ' ' || a[i] == 'T' || a[i] == 'i' || a[i] == 'm' || a[i] == 'e' || a[i] == 'r'
                    || a[i] == 'a' || a[i] == 'n' || a[i] == 'g' || a[i] == ':');
            } else if i < a.len() + d.len() {
                assert(st[i] == d[i - a.len()]);
                assert(ascii(d));
            } else if i < a.len() + d.len() + b.len() {
                assert(st[i] == b[i - a.len() - d.len()]);
                let k = i - a.len() - d.len();
                assert(b[k] == ' ' || b[k] == 's' || b[k] == 'A' || b[k] == 'm' || b[k] == 'o' || b[k] == 'l'
                    || b[k] == 'e' || b[k] == 'f' || b[k] == 't' || b[k] == ':');
            } else {
                let j = i - a.len() - d.len() - b.len();
                assert(st[i] == e[j]);
                if ammo < 0 {
                    assert(e[0] == '-');
                    if j > 0 {
                        assert(e[j] == decimal(m as nat)[j - 1]);
                    }
                } else {
                    assert(e == decimal(m as nat));
                }
            }
        }
    }
    is_ascii_chars_encode_utf8(st);
}

fn victory_line(i: usize) -> (r: (&'static str, Color))
    requires
        i < 11,
        i != 8,
    ensures
        forall|secs: u64, ammo: i32| r.0@ == #[trigger] victory_lines(secs, ammo)[i as int],
        r.1 == victory_colors()[i as int],
{
    if i == 0 {
        (" ██    ██ ██  ██████ ████████  ██████  ██████  ██    ██", Color::AnsiValue(46))
    } else if i == 1 {
        ("  ██  ██  ██ ██         ██    ██    ██ ██   ██  ██  ██ ", Color::AnsiValue(83))
    } else if i == 2 {
        ("   ████   ██ ██         ██    ██    ██ ██████    ████  ", Color::AnsiValue(83))
    } else if i == 3 {
        ("    ██    ██ ██         ██    ██    ██ ██   ██    ██   ", Color::AnsiValue(83))
    } else if i == 4 {
        ("    ██    ██  ██████    ██     ██████  ██   ██    ██   ", Color::AnsiValue(46))
    } else if i == 5 {
        ("", Color::Black)
    } else if i == 6 {
        ("  You escaped the maze!", Color::White)
    } else if i == 7 {
        ("", Color::Black)
    } else if i == 9 {
        ("", Color::Black)
    } else {
        ("  [ R ] New Game     [ Q ] Quit", Color::White)
    }
}

fn victory_stats_text(secs: u64, ammo: i32) -> (s: Vec<char>)
    ensures
        s@ == victory_stats(secs, ammo),
{
    let mut s: Vec<char> = Vec::new();
    push_str(&mut s, "  Time remaining: ");
    push_decimal(&mut s, secs);
    push_str(&mut s, "s   Ammo left: ");
    push_signed(&mut s, ammo as i64);
    proof {
        assert(s@ =~= victory_stats(secs, ammo));
    }
    s
}

/// Draws the victory screen: a green chessboard with the "VICTORY"
/// banner, the seconds and ammunition left, and the restart and quit
/// hints centred on it. `secs` is the remaining time rounded to whole
/// seconds.
pub fn render_victory(buf: &mut Buffer, secs: u64, ammo: i32)
    requires
        old(buf).wf(),
    ensures
        shows_card(*final(buf), *old(buf), victory_lines(secs, ammo), victory_colors(), Color::AnsiValue(28), 11),
{
    let ghost b0 = *buf;
    let (w, h) = (buf.width, buf.height);
    fill_chessboard(buf, Color::AnsiValue(28));
    let stats = victory_stats_text(secs, ammo);
    proof {
        lemma_victory_lines_short(secs, ammo);
    }
    let n: usize = 11;
    let start_y = h.saturating_sub(n + 2) / 2;
    let mut i: usize = 0;
    while i < n
        invariant
            i <= n,
            n == 11,
            w == b0.width,
            h == b0.height,
            start_y == sat_sub(h as int, 13) / 2,
            stats@ == victory_stats(secs, ammo),
            victory_lines(secs, ammo).len() == 11,
            forall|j: int| 0 <= j < 11 ==> (#[trigger] victory_lines(secs, ammo)[j]).len() <= 128,
            byte_len(victory_stats(secs, ammo)) == victory_stats(secs, ammo).len(),
            shows_card(*buf, b0, victory_lines(secs, ammo), victory_colors(), Color::AnsiValue(28), i as int),
        decreases n - i,
    {
        let ghost before = *buf;
        if i == 8 {
            let sx = w.saturating_sub(stats.len()) / 2;
            assert(victory_lines(secs, ammo)[8] == victory_stats(secs, ammo));
            buf.put_chars(sx, start_y + i, &stats, Color::AnsiValue(220), Color::Black);
            proof {
                lemma_card_row(*buf, before, b0, victory_lines(secs, ammo), victory_colors(), Color::AnsiValue(28), i as int, sx as int);
            }
        } else {
            let (line, fg) = victory_line(i);
            assert(line@ == victory_lines(secs, ammo)[i as int]);
            let sx = w.saturating_sub(line.len()) / 2;
            buf.put_str(sx, start_y + i, line, fg, Color::Black);
            proof {
                lemma_card_row(*buf, before, b0, victory_lines(secs, ammo), victory_colors(), Color::AnsiValue(28), i as int, sx as int);
            }
        }
        i = i + 1;
    }
}

} // verus!
