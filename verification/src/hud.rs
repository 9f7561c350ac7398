use vstd::prelude::*;

use crate::buffer::{Buffer, Cell, Color};
use crate::view::overlaid;
use crate::game::{PLAYER_MAX_AMMO, PLAYER_MAX_HP};
use crate::text::{decimal, pad_left, push_decimal, push_signed, push_str, signed_decimal};

verus! {

/// What the status line shows. The remaining time arrives already rounded
/// to whole seconds together with its urgency (0: more than 30 s left,
/// 1: more than 10 s, 2: less), and the letter of the compass direction
/// the player faces.
#[derive(Clone, Copy, Debug, PartialEq, Eq, Structural)]
pub struct HudStatus {
    pub hp: i32,
    pub ammo: i32,
    pub time_secs: u64,
    pub time_urgency: u8,
    pub compass: char,
}

/// Green when healthy, yellow when hurt, red when critical.
pub open spec fn hp_color(hp: i32) -> Color {
    if hp > 60 {
        Color::AnsiValue(40)
    } else if hp > 25 {
        Color::AnsiValue(220)
    } else {
        Color::AnsiValue(196)
    }
}

/// Cyan when plentiful, yellow when low, red when empty.
pub open spec fn ammo_color(ammo: i32) -> Color {
    if ammo > 10 {
        Color::AnsiValue(87)
    } else if ammo > 0 {
        Color::AnsiValue(220)
    } else {
        Color::AnsiValue(196)
    }
}

/// White, then yellow, then red as time runs out.
pub open spec fn time_color(urgency: u8) -> Color {
    if urgency == 0 {
        Color::AnsiValue(250)
    } else if urgency == 1 {
        Color::AnsiValue(220)
    } else {
        Color::AnsiValue(196)
    }
}

/// Filled cells of the twelve-cell health bar: the share of hit points
/// (negative counts as none) out of the maximum, times twelve, rounded to
/// the nearest whole cell.
pub open spec fn bar_fill(hp: i32) -> int {
    let h: int = if hp > 0 { hp as int } else { 0 };
    (h * 12 + 50) / 100
}

/// The cell showing `ch` in `fg` on `bg`.
pub open spec fn text_cell(ch: char, fg: Color, bg: Color) -> Cell {
    Cell { ch, fg, bg }
}

/// `s` drawn in colour `fg` on black.
pub open spec fn colored(s: Seq<char>, fg: Color) -> Seq<Cell> {
    Seq::new(s.len(), |i: int| text_cell(s[i], fg, Color::Black))
}

/// The twelve cells of the health bar.
pub open spec fn health_bar(hp: i32) -> Seq<Cell> {
    Seq::new(12, |i: int| if i < bar_fill(hp) {
        Cell { ch: '█', fg: hp_color(hp), bg: Color::Black }
    } else {
        Cell { ch: '░', fg: Color::AnsiValue(236), bg: Color::Black }
    })
}

/// The separator between the fields of the status line.
pub open spec fn separator() -> Seq<Cell> {
    colored(" │ "@, Color::AnsiValue(240))
}

/// The status line: health bar and hit points, rounds, time left, the
/// direction faced, and the goal.
pub open spec fn status_cells(h: HudStatus) -> Seq<Cell> {
    colored("HP "@, Color::AnsiValue(250))
        + health_bar(h.hp)
        + colored(seq![' '] + signed_decimal(h.hp as int), Color::AnsiValue(250))
        + separator()
        + colored("AMMO "@, Color::AnsiValue(250))
        + colored(pad_left(signed_decimal(h.ammo as int), 2) + "/30"@, ammo_color(h.ammo))
        + separator()
        + colored("TIME "@, Color::AnsiValue(250))
        + colored(pad_left(decimal(h.time_secs as nat), 3) + "s"@, time_color(h.time_urgency))
        + separator()
        + colored(seq![h.compass], Color::AnsiValue(250))
        + separator()
        + colored("FIND THE EXIT"@, Color::AnsiValue(46))
}

/// How many of `n` characters fit from column `cx` when writing stops
/// before the last column of a view `vw` wide.
pub open spec fn fit(cx: int, vw: int, n: int) -> int {
    if vw - 1 - cx <= 0 {
        0
    } else if vw - 1 - cx < n {
        vw - 1 - cx
    } else {
        n
    }
}

/// The cells one key hint writes from column `cx`: the key label
/// highlighted, a space, the description, and a dotted spacer when there
/// is room for it. Label and description stop before the last column; the
/// space after the label is always written.
pub open spec fn keybind_cells(cx: int, vw: int, keys: Seq<char>, desc: Seq<char>) -> Seq<Cell> {
    let k = fit(cx, vw, keys.len() as int);
    let cx2 = cx + k + 1;
    let d = fit(cx2, vw, desc.len() as int);
    let cx3 = cx2 + d;
    Seq::new(k as nat, |i: int| text_cell(keys[i], Color::AnsiValue(226), Color::AnsiValue(235)))
        + seq![Cell { ch: ' ', fg: Color::AnsiValue(244), bg: Color::Black }]
        + colored(desc.take(d), Color::AnsiValue(244))
        + if cx3 + 3 < vw {
            seq![
                Cell { ch: ' ', fg: Color::AnsiValue(244), bg: Color::Black },
                Cell { ch: '·', fg: Color::AnsiValue(238), bg: Color::Black },
                Cell { ch: ' ', fg: Color::AnsiValue(244), bg: Color::Black },
            ]
        } else {
            seq![]
        }
}

/// The key hints of the second HUD line.
pub open spec fn key_binds() -> Seq<(Seq<char>, Seq<char>)> {
    seq![
        ("[W/S]"@, "Move"@),
        ("[A/D]"@, "Turn"@),
        ("[← →]"@, "Strafe"@),
        ("[SPACE]"@, "Shoot"@),
        ("[R]"@, "Restart"@),
        ("[Q/ESC]"@, "Quit"@),
    ]
}

/// The cells the key hints `binds` write one after another from column `cx`.
pub open spec fn key_row_from(cx: int, vw: int, binds: Seq<(Seq<char>, Seq<char>)>) -> Seq<Cell>
    decreases binds.len(),
{
    if binds.len() == 0 {
        seq![]
    } else {
        let c = keybind_cells(cx, vw, binds[0].0, binds[0].1);
        c + key_row_from(cx + c.len(), vw, binds.drop_first())
    }
}

/// The frame of the four HUD rows (`r` = 0 to 3) at column `x < vw`: box
/// corners, horizontal rules above and below, vertical rules at the sides
/// and blanks inside.
pub open spec fn frame_cell(vw: int, r: int, x: int) -> Cell {
    let sep = Color::AnsiValue(240);
    if r == 0 || r == 3 {
        if x == vw - 1 {
            Cell { ch: if r == 0 { '╗' } else { '╝' }, fg: sep, bg: Color::Black }
        } else if x == 0 {
            Cell { ch: if r == 0 { '╔' } else { '╚' }, fg: sep, bg: Color::Black }
        } else {
            Cell { ch: '─', fg: sep, bg: Color::Black }
        }
    } else {
        if x == vw - 1 || x == 0 {
            Cell { ch: '║', fg: sep, bg: Color::Black }
        } else {
            Cell { ch: ' ', fg: Color::White, bg: Color::Black }
        }
    }
}

/// The HUD cell at `(x, y)` for a view `vw` wide whose HUD starts at row
/// `vh`: the status line on the second row and the key hints on the
/// third, over the frame.
pub open spec fn hud_cell(h: HudStatus, vw: int, vh: int, x: int, y: int) -> Option<Cell> {
    let r = y - vh;
    let status = status_cells(h);
    let keys = key_row_from(2, vw, key_binds());
    if r == 1 && 2 <= x < 2 + fit(2, vw, status.len() as int) {
        Some(status[x - 2])
    } else if r == 2 && 2 <= x < 2 + keys.len() {
        Some(keys[x - 2])
    } else if 0 <= r < 4 && 0 <= x < vw {
        Some(frame_cell(vw, r, x))
    } else {
        None
    }
}

/// `b` is `b0` with `cells` written along row `row` from column `lo`,
/// clipped to the drawing area.
pub open spec fn run_at(b: Buffer, b0: Buffer, row: int, lo: int, cells: Seq<Cell>) -> bool {
    &&& b.wf()
    &&& b.same_shape(b0)
    &&& forall|x: int, y: int| #[trigger] b.in_storage(x, y) ==> b.at(x, y) == if b0.in_area(x, y) && y == row
        && lo <= x < lo + cells.len() {
        cells[x - lo]
    } else {
        b0.at(x, y)
    }
}

proof fn lemma_run_concat(b2: Buffer, b1: Buffer, b0: Buffer, row: int, lo: int, e: Seq<Cell>, f: Seq<Cell>)
    requires
        run_at(b1, b0, row, lo, e),
        run_at(b2, b1, row, lo + e.len(), f),
    ensures
        run_at(b2, b0, row, lo, e + f),
{
    assert forall|x: int, y: int| #[trigger] b2.in_storage(x, y) implies b2.at(x, y) == if b0.in_area(x, y) && y == row
        && lo <= x < lo + (e + f).len() {
        (e + f)[x - lo]
    } else {
        b0.at(x, y)
    } by {
        assert(b1.in_storage(x, y));
    }
}

proof fn lemma_run_empty(b: Buffer, row: int, lo: int)
    requires
        b.wf(),
    ensures
        run_at(b, b, row, lo, seq![]),
{
}

/// Writes one cell at column `*cx` and moves on to the next column.
fn put_cell(buf: &mut Buffer, cx: &mut usize, row: usize, c: Cell)
    requires
        old(buf).wf(),
        *old(cx) < usize::MAX,
    ensures
        *final(cx) == *old(cx) + 1,
        run_at(*final(buf), *old(buf), row as int, *old(cx) as int, seq![c]),
{
    let ghost b0 = *buf;
    buf.put(*cx, row, c.ch, c.fg, c.bg);
    assert forall|x: int, y: int| #[trigger] buf.in_storage(x, y) implies buf.at(x, y) == if b0.in_area(x, y) && y == row
        && *old(cx) <= x < *old(cx) + 1 {
        seq![c][x - *old(cx)]
    } else {
        b0.at(x, y)
    } by {
    }
    *cx = *cx + 1;
}

/// Writes `cells` from column `*cx` onwards, stopping before the last
/// column of a view `vw` wide.
fn write_clipped(buf: &mut Buffer, cx: &mut usize, row: usize, cells: &Vec<Cell>, vw: usize)
    requires
        old(buf).wf(),
        vw < usize::MAX,
        *old(cx) < usize::MAX,
    ensures
        *final(cx) == *old(cx) + fit(*old(cx) as int, vw as int, cells@.len() as int),
        run_at(*final(buf), *old(buf), row as int, *old(cx) as int,
            cells@.take(fit(*old(cx) as int, vw as int, cells@.len() as int))),
{
    let ghost b0 = *buf;
    let ghost cx0 = *cx;
    let n = cells.len();
    let mut i: usize = 0;
    proof {
        lemma_run_empty(*buf, row as int, cx0 as int);
        assert(cells@.take(0) =~= seq![]);
    }
    while i < n && *cx + 1 < vw
        invariant
            i <= n,
            n == cells@.len(),
            vw < usize::MAX,
            cx0 < usize::MAX,
            *cx == cx0 + i,
            *cx < usize::MAX,
            i <= fit(cx0 as int, vw as int, n as int),
            run_at(*buf, b0, row as int, cx0 as int, cells@.take(i as int)),
        decreases n - i,
    {
        let ghost b1 = *buf;
        let ghost c1 = *cx;
        put_cell(buf, cx, row, cells[i]);
        proof {
            lemma_run_concat(*buf, b1, b0, row as int, cx0 as int, cells@.take(i as int), seq![cells@[i as int]]);
            assert(cells@.take(i as int) + seq![cells@[i as int]] =~= cells@.take(i + 1));
        }
        i = i + 1;
    }
    proof {
        assert(i == fit(cx0 as int, vw as int, n as int));
    }
}

fn cell_of(ch: char, fg: Color, bg: Color) -> (c: Cell)
    ensures
        c == text_cell(ch, fg, bg),
{
    Cell { ch, fg, bg }
}

fn colored_text(s: &str, fg: Color) -> (r: Vec<Cell>)
    ensures
        r@ == colored(s@, fg),
{
    let mut chars: Vec<char> = Vec::new();
    push_str(&mut chars, s);
    colored_chars(&chars, fg)
}

fn colored_chars(text: &Vec<char>, color: Color) -> (r: Vec<Cell>)
    ensures
        r@ == colored(text@, color),
{
    let r = painted_chars(text, color, Color::Black);
    assert(r@ =~= colored(text@, color));
    r
}

/// `text` as cells in `fg` on `bg`.
fn painted_chars(text: &Vec<char>, fg: Color, bg: Color) -> (r: Vec<Cell>)
    ensures
        r@ == Seq::new(text@.len(), |i: int| text_cell(text@[i], fg, bg)),
{
    let mut out: Vec<Cell> = Vec::new();
    let n = text.len();
    let mut i: usize = 0;
    while i < n
        invariant
            n == text@.len(),
            i <= n,
            out@.len() == i,
            forall|k: int| 0 <= k < i ==> #[trigger] out@[k] == text_cell(text@[k], fg, bg),
        decreases n - i,
    {
        out.push(cell_of(text[i], fg, bg));
        i = i + 1;
    }
    assert(out@ =~= Seq::new(text@.len(), |i: int| text_cell(text@[i], fg, bg)));
    out
}

fn append_cells(out: &mut Vec<Cell>, more: Vec<Cell>)
    ensures
        final(out)@ == old(out)@ + more@,
{
    let mut more = more;
    out.append(&mut more);
}

fn pad_to(s: Vec<char>, width: usize) -> (r: Vec<char>)
    ensures
        r@ == pad_left(s@, width as nat),
{
    if s.len() >= width {
        s
    } else {
        let mut out: Vec<char> = Vec::new();
        let k = width - s.len();
        let mut i: usize = 0;
        while i < k
            invariant
                i <= k,
                out@ == Seq::new(i as nat, |j: int| ' '),
            decreases k - i,
        {
            out.push(' ');
            i = i + 1;
            proof {
                assert(out@ =~= Seq::new(i as nat, |j: int| ' '));
            }
        }
        let mut s = s;
        out.append(&mut s);
        out
    }
}

/// The status line as cells.
fn status_line(h: &HudStatus) -> (r: Vec<Cell>)
    ensures
        r@ == status_cells(*h),
{
    let mut cells = colored_text("HP ", Color::AnsiValue(250));

    // health bar
    let hp_c = if h.hp > 60 {
        Color::AnsiValue(40)
    } else if h.hp > 25 {
        Color::AnsiValue(220)
    } else {
        Color::AnsiValue(196)
    };
    let hpos: i64 = if h.hp > 0 { h.hp as i64 } else { 0 };
    let fill: i64 = (hpos * 12 + 50) / 100;
    let ghost before_bar = cells@;
    let mut i: i64 = 0;
    while i < 12
        invariant
            0 <= i <= 12,
            fill == bar_fill(h.hp),
            hp_c == hp_color(h.hp),
            cells@ == before_bar + health_bar(h.hp).take(i as int),
        decreases 12 - i,
    {
        if i < fill {
            cells.push(cell_of('█', hp_c, Color::Black));
        } else {
            cells.push(cell_of('░', Color::AnsiValue(236), Color::Black));
        }
        i = i + 1;
        proof {
            assert(cells@ =~= before_bar + health_bar(h.hp).take(i as int));
        }
    }
    assert(health_bar(h.hp).take(12) =~= health_bar(h.hp));

    let mut hp_text: Vec<char> = Vec::new();
    hp_text.push(' ');
    push_signed(&mut hp_text, h.hp as i64);
    append_cells(&mut cells, colored_chars(&hp_text, Color::AnsiValue(250)));
    append_cells(&mut cells, colored_text(" │ ", Color::AnsiValue(240)));

    // ammo
    let ammo_c = if h.ammo > 10 {
        Color::AnsiValue(87)
    } else if h.ammo > 0 {
        Color::AnsiValue(220)
    } else {
        Color::AnsiValue(196)
    };
    append_cells(&mut cells, colored_text("AMMO ", Color::AnsiValue(250)));
    let mut ammo_num: Vec<char> = Vec::new();
    push_signed(&mut ammo_num, h.ammo as i64);
    let mut ammo_text = pad_to(ammo_num, 2);
    push_str(&mut ammo_text, "/30");
    append_cells(&mut cells, colored_chars(&ammo_text, ammo_c));
    append_cells(&mut cells, colored_text(" │ ", Color::AnsiValue(240)));

    // timer
    let time_c = if h.time_urgency == 0 {
        Color::AnsiValue(250)
    } else if h.time_urgency == 1 {
        Color::AnsiValue(220)
    } else {
        Color::AnsiValue(196)
    };
    append_cells(&mut cells, colored_text("TIME ", Color::AnsiValue(250)));
    let mut secs: Vec<char> = Vec::new();
    push_decimal(&mut secs, h.time_secs);
    let mut time_text = pad_to(secs, 3);
    push_str(&mut time_text, "s");
    append_cells(&mut cells, colored_chars(&time_text, time_c));
    append_cells(&mut cells, colored_text(" │ ", Color::AnsiValue(240)));

    // compass
    let mut compass_text: Vec<char> = Vec::new();
    compass_text.push(h.compass);
    append_cells(&mut cells, colored_chars(&compass_text, Color::AnsiValue(250)));
    append_cells(&mut cells, colored_text(" │ ", Color::AnsiValue(240)));

    // goal
    append_cells(&mut cells, colored_text("FIND THE EXIT", Color::AnsiValue(46)));

    proof {
        assert(hp_text@ =~= seq![' '] + signed_decimal(h.hp as int));
        assert(compass_text@ =~= seq![h.compass]);
        assert(cells@ =~= status_cells(*h));
    }
    cells
}


/// Writes one key hint from column `*cx`: the highlighted key label, a
/// space, the description and, when there is room, a dotted spacer.
fn keybind(buf: &mut Buffer, cx: &mut usize, row: usize, keys: &str, desc: &str, vw: usize)
    requires
        old(buf).wf(),
        vw + 16 <= usize::MAX,
        *old(cx) + 16 <= usize::MAX,
    ensures
        *final(cx) == *old(cx) + keybind_cells(*old(cx) as int, vw as int, keys@, desc@).len(),
        *final(cx) <= if *old(cx) + 1 > vw { *old(cx) + 1 } else { vw as int },
        run_at(*final(buf), *old(buf), row as int, *old(cx) as int,
            keybind_cells(*old(cx) as int, vw as int, keys@, desc@)),
{
    let ghost b0 = *buf;
    let ghost cx0 = *cx as int;
    let mut kc: Vec<char> = Vec::new();
    push_str(&mut kc, keys);
    let label = painted_chars(&kc, Color::AnsiValue(226), Color::AnsiValue(235));
    write_clipped(buf, cx, row, &label, vw);
    let ghost b1 = *buf;
    let ghost e1 = label@.take(fit(cx0, vw as int, keys@.len() as int));
    put_cell(buf, cx, row, Cell { ch: ' ', fg: Color::AnsiValue(244), bg: Color::Black });
    let ghost b2 = *buf;
    let ghost e2 = e1 + seq![Cell { ch: ' ', fg: Color::AnsiValue(244), bg: Color::Black }];
    proof {
        lemma_run_concat(b2, b1, b0, row as int, cx0, e1, seq![Cell { ch: ' ', fg: Color::AnsiValue(244), bg: Color::Black }]);
    }
    let ghost cx2 = *cx as int;
    let desc_cells = colored_text(desc, Color::AnsiValue(244));
    write_clipped(buf, cx, row, &desc_cells, vw);
    let ghost b3 = *buf;
    let ghost e3 = e2 + desc_cells@.take(fit(cx2, vw as int, desc@.len() as int));
    proof {
        lemma_run_concat(b3, b2, b0, row as int, cx0, e2, desc_cells@.take(fit(cx2, vw as int, desc@.len() as int)));
    }
    if *cx + 3 < vw {
        put_cell(buf, cx, row, Cell { ch: ' ', fg: Color::AnsiValue(244), bg: Color::Black });
        let ghost b4 = *buf;
        proof {
            lemma_run_concat(b4, b3, b0, row as int, cx0, e3, seq![Cell { ch: ' ', fg: Color::AnsiValue(244), bg: Color::Black }]);
        }
        put_cell(buf, cx, row, Cell { ch: '·', fg: Color::AnsiValue(238), bg: Color::Black });
        let ghost b5 = *buf;
        proof {
            lemma_run_concat(b5, b4, b0, row as int, cx0,
                e3 + seq![Cell { ch: ' ', fg: Color::AnsiValue(244), bg: Color::Black }],
                seq![Cell { ch: '·', fg: Color::AnsiValue(238), bg: Color::Black }]);
        }
        put_cell(buf, cx, row, Cell { ch: ' ', fg: Color::AnsiValue(244), bg: Color::Black });
        proof {
            lemma_run_concat(*buf, b5, b0, row as int, cx0,
                e3 + seq![Cell { ch: ' ', fg: Color::AnsiValue(244), bg: Color::Black }]
                    + seq![Cell { ch: '·', fg: Color::AnsiValue(238), bg: Color::Black }],
                seq![Cell { ch: ' ', fg: Color::AnsiValue(244), bg: Color::Black }]);
            assert(e3 + seq![Cell { ch: ' ', fg: Color::AnsiValue(244), bg: Color::Black }]
                + seq![Cell { ch: '·', fg: Color::AnsiValue(238), bg: Color::Black }]
                + seq![Cell { ch: ' ', fg: Color::AnsiValue(244), bg: Color::Black }]
                =~= keybind_cells(cx0, vw as int, keys@, desc@));
        }
    } else {
        proof {
            assert(e3 =~= keybind_cells(cx0, vw as int, keys@, desc@));
        }
    }
}


/// The key hints written one after another from column 2.
proof fn lemma_key_row_unfold(vw: int) -> (cs: Seq<int>)
    ensures
        cs.len() == 7,
        cs[0] == 2,
        cs[1] == cs[0] + keybind_cells(cs[0], vw, key_binds()[0].0, key_binds()[0].1).len(),
        cs[2] == cs[1] + keybind_cells(cs[1], vw, key_binds()[1].0, key_binds()[1].1).len(),
        cs[3] == cs[2] + keybind_cells(cs[2], vw, key_binds()[2].0, key_binds()[2].1).len(),
        cs[4] == cs[3] + keybind_cells(cs[3], vw, key_binds()[3].0, key_binds()[3].1).len(),
        cs[5] == cs[4] + keybind_cells(cs[4], vw, key_binds()[4].0, key_binds()[4].1).len(),
        cs[6] == cs[5] + keybind_cells(cs[5], vw, key_binds()[5].0, key_binds()[5].1).len(),
        key_row_from(2, vw, key_binds()) == keybind_cells(cs[0], vw, key_binds()[0].0, key_binds()[0].1)
            + keybind_cells(cs[1], vw, key_binds()[1].0, key_binds()[1].1)
            + keybind_cells(cs[2], vw, key_binds()[2].0, key_binds()[2].1)
            + keybind_cells(cs[3], vw, key_binds()[3].0, key_binds()[3].1)
            + keybind_cells(cs[4], vw, key_binds()[4].0, key_binds()[4].1)
            + keybind_cells(cs[5], vw, key_binds()[5].0, key_binds()[5].1),
{
    let b = key_binds();
    let k0 = keybind_cells(2, vw, b[0].0, b[0].1);
    let c1: int = 2int + k0.len();
    let k1 = keybind_cells(c1, vw, b[1].0, b[1].1);
    let c2: int = c1 + k1.len();
    let k2 = keybind_cells(c2, vw, b[2].0, b[2].1);
    let c3: int = c2 + k2.len();
    let k3 = keybind_cells(c3, vw, b[3].0, b[3].1);
    let c4: int = c3 + k3.len();
    let k4 = keybind_cells(c4, vw, b[4].0, b[4].1);
    let c5: int = c4 + k4.len();
    let k5 = keybind_cells(c5, vw, b[5].0, b[5].1);
    let c6: int = c5 + k5.len();
    let b1 = b.drop_first();
    let b2 = b1.drop_first();
    let b3 = b2.drop_first();
    let b4 = b3.drop_first();
    let b5 = b4.drop_first();
    let b6 = b5.drop_first();
    assert(b6.len() == 0);
    assert(key_row_from(c6, vw, b6) == Seq::<Cell>::empty());
    assert(key_row_from(c5, vw, b5) == k5 + key_row_from(c6, vw, b6));
    assert(key_row_from(c4, vw, b4) == k4 + key_row_from(c5, vw, b5));
    assert(key_row_from(c3, vw, b3) == k3 + key_row_from(c4, vw, b4));
    assert(key_row_from(c2, vw, b2) == k2 + key_row_from(c3, vw, b3));
    assert(key_row_from(c1, vw, b1) == k1 + key_row_from(c2, vw, b2));
    assert(key_row_from(2, vw, b) == k0 + key_row_from(c1, vw, b1));
    assert(k5 + Seq::<Cell>::empty() =~= k5);
    assert(k0 + (k1 + (k2 + (k3 + (k4 + k5)))) =~= k0 + k1 + k2 + k3 + k4 + k5);
    seq![2, c1, c2, c3, c4, c5, c6]
}

/// Draws the frame of the four HUD rows starting at row `vh`: corners,
/// rules and blank insides over the `vw` columns of the view.
fn draw_hud_frame(buf: &mut Buffer, vw: usize, vh: usize)
    requires
        old(buf).wf(),
        vw >= 1,
        vh + 4 <= usize::MAX,
    ensures
        overlaid(*final(buf), *old(buf), |x: int, y: int| if vh <= y <= vh + 3 && 0 <= x < vw {
            Some(frame_cell(vw as int, y - vh, x))
        } else {
            None
        }),
{
    let (r0, r1, r2, r3) = (vh, vh + 1, vh + 2, vh + 3);
    let ghost b0 = *buf;
    let sep_color = Color::AnsiValue(240);
    let bg = Color::Black;
    let mut x: usize = 0;
    while x < vw
        invariant
            x <= vw,
            r0 == vh && r1 == vh + 1 && r2 == vh + 2 && r3 == vh + 3,
            sep_color == Color::AnsiValue(240),
            bg == Color::Black,
            buf.wf(),
            buf.same_shape(b0),
            forall|xx: int, yy: int| #[trigger] buf.in_storage(xx, yy) ==> buf.at(xx, yy) == if b0.in_area(xx, yy)
                && vh <= yy <= vh + 3 && xx < x {
                if yy == vh || yy == vh + 3 {
                    Cell { ch: '─', fg: Color::AnsiValue(240), bg: Color::Black }
                } else {
                    Cell { ch: ' ', fg: Color::White, bg: Color::Black }
                }
            } else {
                b0.at(xx, yy)
            },
        decreases vw - x,
    {
        let ghost s0 = *buf;
        buf.put(x, r0, '─', sep_color, bg);
        let ghost s1 = *buf;
        buf.put(x, r3, '─', sep_color, bg);
        let ghost s2 = *buf;
        buf.put(x, r1, ' ', Color::White, bg);
        let ghost s3 = *buf;
        buf.put(x, r2, ' ', Color::White, bg);
        assert forall|xx: int, yy: int| #[trigger] buf.in_storage(xx, yy) implies buf.at(xx, yy) == if b0.in_area(xx, yy)
            && vh <= yy <= vh + 3 && xx < x + 1 {
            if yy == vh || yy == vh + 3 {
                Cell { ch: '─', fg: Color::AnsiValue(240), bg: Color::Black }
            } else {
                Cell { ch: ' ', fg: Color::White, bg: Color::Black }
            }
        } else {
            b0.at(xx, yy)
        } by {
            assert(s0.in_storage(xx, yy));
            assert(s1.in_storage(xx, yy));
            assert(s2.in_storage(xx, yy));
            assert(s3.in_storage(xx, yy));
        }
        x = x + 1;
    }
    let ghost f0 = *buf;
    buf.put(0, r0, '╔', sep_color, bg);
    let ghost f1 = *buf;
    buf.put(vw - 1, r0, '╗', sep_color, bg);
    let ghost f2 = *buf;
    buf.put(0, r3, '╚', sep_color, bg);
    let ghost f3 = *buf;
    buf.put(vw - 1, r3, '╝', sep_color, bg);
    let ghost f4 = *buf;
    buf.put(0, r1, '║', sep_color, bg);
    let ghost f5 = *buf;
    buf.put(vw - 1, r1, '║', sep_color, bg);
    let ghost f6 = *buf;
    buf.put(0, r2, '║', sep_color, bg);
    let ghost f7 = *buf;
    buf.put(vw - 1, r2, '║', sep_color, bg);
    assert forall|xx: int, yy: int| #[trigger] buf.in_storage(xx, yy) implies buf.at(xx, yy) == if b0.in_area(xx, yy)
        && vh <= yy <= vh + 3 && 0 <= xx < vw {
        frame_cell(vw as int, yy - vh, xx)
    } else {
        b0.at(xx, yy)
    } by {
        assert(f0.in_storage(xx, yy));
        assert(f1.in_storage(xx, yy));
        assert(f2.in_storage(xx, yy));
        assert(f3.in_storage(xx, yy));
        assert(f4.in_storage(xx, yy));
        assert(f5.in_storage(xx, yy));
        assert(f6.in_storage(xx, yy));
        assert(f7.in_storage(xx, yy));
    }
}

/// Writes the key hints along `row` from column 2.
fn draw_key_row(buf: &mut Buffer, row: usize, vw: usize)
    requires
        old(buf).wf(),
        vw + 64 <= usize::MAX,
    ensures
        run_at(*final(buf), *old(buf), row as int, 2, key_row_from(2, vw as int, key_binds())),
{
    let ghost b0 = *buf;
    let mut cx: usize = 2;
    let ghost cs = lemma_key_row_unfold(vw as int);
    keybind(buf, &mut cx, row, "[W/S]", "Move", vw);
    let ghost k1 = *buf;
    let ghost acc1 = keybind_cells(cs[0], vw as int, key_binds()[0].0, key_binds()[0].1);
    assert(cx == cs[1]);
    keybind(buf, &mut cx, row, "[A/D]", "Turn", vw);
    let ghost k2 = *buf;
    let ghost acc2 = acc1 + keybind_cells(cs[1], vw as int, key_binds()[1].0, key_binds()[1].1);
    proof {
        lemma_run_concat(k2, k1, b0, row as int, 2, acc1, keybind_cells(cs[1], vw as int, key_binds()[1].0, key_binds()[1].1));
    }
    assert(cx == cs[2]);
    keybind(buf, &mut cx, row, "[← →]", "Strafe", vw);
    let ghost k3 = *buf;
    let ghost acc3 = acc2 + keybind_cells(cs[2], vw as int, key_binds()[2].0, key_binds()[2].1);
    proof {
        lemma_run_concat(k3, k2, b0, row as int, 2, acc2, keybind_cells(cs[2], vw as int, key_binds()[2].0, key_binds()[2].1));
    }
    assert(cx == cs[3]);
    keybind(buf, &mut cx, row, "[SPACE]", "Shoot", vw);
    let ghost k4 = *buf;
    let ghost acc4 = acc3 + keybind_cells(cs[3], vw as int, key_binds()[3].0, key_binds()[3].1);
    proof {
        lemma_run_concat(k4, k3, b0, row as int, 2, acc3, keybind_cells(cs[3], vw as int, key_binds()[3].0, key_binds()[3].1));
    }
    assert(cx == cs[4]);
    keybind(buf, &mut cx, row, "[R]", "Restart", vw);
    let ghost k5 = *buf;
    let ghost acc5 = acc4 + keybind_cells(cs[4], vw as int, key_binds()[4].0, key_binds()[4].1);
    proof {
        lemma_run_concat(k5, k4, b0, row as int, 2, acc4, keybind_cells(cs[4], vw as int, key_binds()[4].0, key_binds()[4].1));
    }
    assert(cx == cs[5]);
    keybind(buf, &mut cx, row, "[Q/ESC]", "Quit", vw);
    let ghost acc6 = acc5 + keybind_cells(cs[5], vw as int, key_binds()[5].0, key_binds()[5].1);
    proof {
        lemma_run_concat(*buf, k5, b0, row as int, 2, acc5, keybind_cells(cs[5], vw as int, key_binds()[5].0, key_binds()[5].1));
        assert(acc6 == key_row_from(2, vw as int, key_binds()));
    }
}

/// Draws the four HUD rows below a view `vw` wide and `vh` tall: a framed
/// box with the status line (health bar, rounds, time, compass, goal)
/// and a line of key hints. Nothing is drawn unless all four rows fit in
/// the buffer.
pub fn render_hud(buf: &mut Buffer, hud: &HudStatus, vw: usize, vh: usize)
    requires
        old(buf).wf(),
        vw + 64 <= usize::MAX,
        vh + 3 <= usize::MAX,
        vh + 3 < old(buf).height ==> vw >= 1,
    ensures
        vh + 3 >= old(buf).height ==> *final(buf) == *old(buf),
        vh + 3 < old(buf).height ==> overlaid(*final(buf), *old(buf), |x: int, y: int| hud_cell(*hud, vw as int,
            vh as int, x, y)),
{
    let (r1, r2, r3) = (vh + 1, vh + 2, vh + 3);
    if r3 >= buf.height {
        return;
    }
    let ghost b0 = *buf;
    draw_hud_frame(buf, vw, vh);
    let ghost framed = *buf;

    // Status row
    let status = status_line(hud);
    let mut cx: usize = 2;
    write_clipped(buf, &mut cx, r1, &status, vw);
    let ghost after_status = *buf;

    // Key reference row
    draw_key_row(buf, r2, vw);
    assert forall|xx: int, yy: int| #[trigger] buf.in_storage(xx, yy) implies buf.at(xx, yy) == if b0.in_area(xx, yy)
        && hud_cell(*hud, vw as int, vh as int, xx, yy) is Some {
        hud_cell(*hud, vw as int, vh as int, xx, yy)->0
    } else {
        b0.at(xx, yy)
    } by {
        assert(after_status.in_storage(xx, yy));
        assert(framed.in_storage(xx, yy));
    }
}

} // verus!
