use vstd::prelude::*;

use crate::buffer::{Buffer, Cell, Color};

verus! {

/// One terminal output step of a frame update.
#[derive(Clone, Copy, Debug, PartialEq, Eq, Structural)]
pub enum DrawOp {
    /// Move the cursor to a 1-based row and column.
    MoveTo(usize, usize),
    /// Set the foreground colour.
    Foreground(Color),
    /// Set the background colour.
    Background(Color),
    /// Print a character at the cursor, which then moves one column right.
    Print(char),
}

/// What the encoder knows after some cells: the operations so far, the
/// colours last set, and the cell the cursor stands on (row, column).
pub type DiffState = (Seq<DrawOp>, Color, Color, Option<(int, int)>);

/// The cell that the previous frame shows at `(x, y)`; outside it, a cell
/// that no frame draws (a NUL character in the reset colours).
pub open spec fn shown_cell(prev: Option<Buffer>, x: int, y: int) -> Cell {
    match prev {
        Some(p) => if 0 <= x < p.width && 0 <= y < p.height {
            p.at(x, y)
        } else {
            Cell { ch: '\0', fg: Color::Reset, bg: Color::Reset }
        },
        None => Cell { ch: '\0', fg: Color::Reset, bg: Color::Reset },
    }
}

/// The encoder's step for cell `(x, y)`: nothing when the cell is
/// unchanged; otherwise a cursor move unless the cursor already stands
/// there, a colour change for each colour that differs from the last one
/// set, and the character.
pub open spec fn diff_step(s: DiffState, c: Cell, shown: Cell, x: int, y: int) -> DiffState {
    if c == shown {
        s
    } else {
        let ops0 = s.0;
        let ops1 = if s.3 == Some((y, x)) { ops0 } else { ops0.push(DrawOp::MoveTo((y + 1) as usize, (x + 1) as usize)) };
        let ops2 = if c.fg != s.1 { ops1.push(DrawOp::Foreground(c.fg)) } else { ops1 };
        let ops3 = if c.bg != s.2 { ops2.push(DrawOp::Background(c.bg)) } else { ops2 };
        (ops3.push(DrawOp::Print(c.ch)), c.fg, c.bg, Some((y, x + 1)))
    }
}

/// The state after cells `0..x` of row `y`, starting from `s`.
pub open spec fn diff_row(curr: Buffer, prev: Option<Buffer>, y: int, x: nat, s: DiffState) -> DiffState
    decreases x,
{
    if x == 0 {
        s
    } else {
        let x1 = (x - 1) as nat;
        diff_step(diff_row(curr, prev, y, x1, s), curr.at(x1 as int, y), shown_cell(prev, x1 as int, y), x1 as int, y)
    }
}

/// The state after rows `0..y`, left to right and top to bottom.
pub open spec fn diff_rows(curr: Buffer, prev: Option<Buffer>, y: nat) -> DiffState
    decreases y,
{
    if y == 0 {
        (Seq::empty(), Color::Reset, Color::Reset, None)
    } else {
        let y1 = (y - 1) as nat;
        diff_row(curr, prev, y1 as int, curr.width as nat, diff_rows(curr, prev, y1))
    }
}

/// The output steps that turn the terminal from showing `prev` into
/// showing `curr`.
pub open spec fn frame_diff(curr: Buffer, prev: Option<Buffer>) -> Seq<DrawOp> {
    diff_rows(curr, prev, curr.height as nat).0
}

/// Double-buffer differential update: the output steps that redraw only
/// the cells of `curr` that differ from the previous frame `prev` (all of
/// them when there is none).
pub fn frame_ops(curr: &Buffer, prev: &Option<Buffer>) -> (ops: Vec<DrawOp>)
    requires
        curr.wf(),
        prev matches Some(p) ==> p.wf(),
    ensures
        ops@ == frame_diff(*curr, *prev),
{
    let (w, h) = (curr.width, curr.height);
    let mut ops: Vec<DrawOp> = Vec::new();
    let mut last_fg = Color::Reset;
    let mut last_bg = Color::Reset;
    let mut last_pos: Option<(usize, usize)> = None;

    let mut y: usize = 0;
    while y < h
        invariant
            y <= h,
            w == curr.width,
            h == curr.height,
            curr.wf(),
            prev matches Some(p) ==> p.wf(),
            diff_rows(*curr, *prev, y as nat) == (ops@, last_fg, last_bg, match last_pos {
                Some(p) => Some((p.0 as int, p.1 as int)),
                None => None::<(int, int)>,
            }),
        decreases h - y,
    {
        let mut x: usize = 0;
        while x < w
            invariant
                x <= w,
                y < h,
                w == curr.width,
                h == curr.height,
                curr.wf(),
                prev matches Some(p) ==> p.wf(),
                diff_row(*curr, *prev, y as int, x as nat, diff_rows(*curr, *prev, y as nat)) == (ops@, last_fg, last_bg, match last_pos {
                    Some(p) => Some((p.0 as int, p.1 as int)),
                    None => None::<(int, int)>,
                }),
            decreases w - x,
        {
            let cell = curr.cells[y][x];
            let old = match prev {
                Some(p) => if y < p.height && x < p.width {
                    p.cells[y][x]
                } else {
                    Cell { ch: '\0', fg: Color::Reset, bg: Color::Reset }
                },
                None => Cell { ch: '\0', fg: Color::Reset, bg: Color::Reset },
            };
            if cell != old {
                let sequential = match last_pos {
                    Some((py, px)) => py == y && px == x,
                    None => false,
                };
                if !sequential {
                    ops.push(DrawOp::MoveTo(y + 1, x + 1));
                }
                if cell.fg != last_fg {
                    ops.push(DrawOp::Foreground(cell.fg));
                    last_fg = cell.fg;
                }
                if cell.bg != last_bg {
                    ops.push(DrawOp::Background(cell.bg));
                    last_bg = cell.bg;
                }
                ops.push(DrawOp::Print(cell.ch));
                last_pos = Some((y, x + 1));
            }
            x = x + 1;
        }
        y = y + 1;
    }
    ops
}


// ── What the output steps do to a terminal ──────────────────────────────────

/// A terminal as the renderer sees it: the cell shown at each column and
/// row, the cursor's row and column, and the current foreground and
/// background colours.
pub type TermState = (spec_fn(int, int) -> Cell, int, int, Color, Color);

/// The effect of one output step on a terminal.
pub open spec fn term_apply(t: TermState, op: DrawOp) -> TermState {
    match op {
        DrawOp::MoveTo(row, col) => (t.0, row - 1, col - 1, t.3, t.4),
        DrawOp::Foreground(c) => (t.0, t.1, t.2, c, t.4),
        DrawOp::Background(c) => (t.0, t.1, t.2, t.3, c),
        DrawOp::Print(ch) => (
            |x: int, y: int| if y == t.1 && x == t.2 { Cell { ch, fg: t.3, bg: t.4 } } else { (t.0)(x, y) },
            t.1,
            t.2 + 1,
            t.3,
            t.4,
        ),
    }
}

/// The effect of a sequence of output steps, in order.
pub open spec fn term_run(t: TermState, ops: Seq<DrawOp>) -> TermState
    decreases ops.len(),
{
    if ops.len() == 0 {
        t
    } else {
        term_apply(term_run(t, ops.drop_last()), ops.last())
    }
}

/// No cell of `curr` is drawn in the reset colours.
pub open spec fn draws_no_reset(curr: Buffer) -> bool {
    forall|x: int, y: int| 0 <= x < curr.width && 0 <= y < curr.height ==> (#[trigger] curr.at(x, y)).fg
        != Color::Reset && curr.at(x, y).bg != Color::Reset
}

/// The terminal `t2`, reached from `t` by the steps of state `s`, matches
/// `s` (but for a colour that was never set, when `curr` never draws in
/// it) and shows `curr` on the cells before `(x, y)` in row order and what
/// `t` showed elsewhere.
spec fn redraw_inv(t: TermState, curr: Buffer, s: DiffState, y: int, x: int) -> bool {
    let t2 = term_run(t, s.0);
    &&& t2.3 == s.1 || (s.1 == Color::Reset && draws_no_reset(curr))
    &&& t2.4 == s.2 || (s.2 == Color::Reset && draws_no_reset(curr))
    &&& (s.3 matches Some(p) ==> t2.1 == p.0 && t2.2 == p.1)
    &&& forall|xx: int, yy: int| #![trigger (t2.0)(xx, yy)] (t2.0)(xx, yy) == if 0 <= xx < curr.width && 0 <= yy < curr.height
        && (yy < y || (yy == y && xx < x)) {
        curr.at(xx, yy)
    } else {
        (t.0)(xx, yy)
    }
}

proof fn lemma_run_push(t: TermState, ops: Seq<DrawOp>, op: DrawOp)
    ensures
        term_run(t, ops.push(op)) == term_apply(term_run(t, ops), op),
{
    assert(ops.push(op).drop_last() =~= ops);
}

proof fn lemma_redraw_step(t: TermState, curr: Buffer, prev: Option<Buffer>, s: DiffState, y: int, x: int)
    requires
        0 <= x < curr.width,
        0 <= y < curr.height,
        redraw_inv(t, curr, s, y, x),
        (t.0)(x, y) == shown_cell(prev, x, y) || curr.at(x, y) != shown_cell(prev, x, y),
    ensures
        redraw_inv(t, curr, diff_step(s, curr.at(x, y), shown_cell(prev, x, y), x, y), y, x + 1),
{
    let c = curr.at(x, y);
    let shown = shown_cell(prev, x, y);
    let s2 = diff_step(s, c, shown, x, y);
    if c != shown {
        let ops0 = s.0;
        let ops1 = if s.3 == Some((y, x)) { ops0 } else { ops0.push(DrawOp::MoveTo((y + 1) as usize, (x + 1) as usize)) };
        let ops2 = if c.fg != s.1 { ops1.push(DrawOp::Foreground(c.fg)) } else { ops1 };
        let ops3 = if c.bg != s.2 { ops2.push(DrawOp::Background(c.bg)) } else { ops2 };
        lemma_run_push(t, ops0, DrawOp::MoveTo((y + 1) as usize, (x + 1) as usize));
        lemma_run_push(t, ops1, DrawOp::Foreground(c.fg));
        lemma_run_push(t, ops2, DrawOp::Background(c.bg));
        lemma_run_push(t, ops3, DrawOp::Print(c.ch));
        let t1 = term_run(t, ops1);
        assert(t1.1 == y && t1.2 == x);
        assert(t1.3 == term_run(t, ops0).3 && t1.4 == term_run(t, ops0).4);
        let t3 = term_run(t, ops3);
        assert(t3.0 == t1.0);
        assert(t3.1 == y && t3.2 == x && t3.3 == c.fg && t3.4 == c.bg);
        let t4 = term_run(t, s2.0);
        assert(s2.0 == ops3.push(DrawOp::Print(c.ch)));
        assert forall|xx: int, yy: int| #![trigger (t4.0)(xx, yy)] (t4.0)(xx, yy) == if 0 <= xx < curr.width && 0 <= yy
            < curr.height && (yy < y || (yy == y && xx < x + 1)) {
            curr.at(xx, yy)
        } else {
            (t.0)(xx, yy)
        } by {
            assert((t1.0)(xx, yy) == (term_run(t, ops0).0)(xx, yy));
        }
    }
}

proof fn lemma_redraw_row(t: TermState, curr: Buffer, prev: Option<Buffer>, s: DiffState, y: int, x: nat)
    requires
        x <= curr.width,
        0 <= y < curr.height,
        redraw_inv(t, curr, s, y, 0),
        forall|xx: int, yy: int| 0 <= xx < curr.width && 0 <= yy < curr.height ==> #[trigger] (t.0)(xx, yy)
            == shown_cell(prev, xx, yy) || curr.at(xx, yy) != shown_cell(prev, xx, yy),
    ensures
        redraw_inv(t, curr, diff_row(curr, prev, y, x, s), y, x as int),
    decreases x,
{
    if x > 0 {
        let x1 = (x - 1) as nat;
        lemma_redraw_row(t, curr, prev, s, y, x1);
        assert((t.0)(x1 as int, y) == shown_cell(prev, x1 as int, y) || curr.at(x1 as int, y) != shown_cell(
            prev,
            x1 as int,
            y,
        ));
        lemma_redraw_step(t, curr, prev, diff_row(curr, prev, y, x1, s), y, x1 as int);
    }
}

proof fn lemma_redraw_rows(t: TermState, curr: Buffer, prev: Option<Buffer>, y: nat)
    requires
        y <= curr.height,
        (t.3 == Color::Reset && t.4 == Color::Reset) || draws_no_reset(curr),
        forall|xx: int, yy: int| 0 <= xx < curr.width && 0 <= yy < curr.height ==> #[trigger] (t.0)(xx, yy)
            == shown_cell(prev, xx, yy) || curr.at(xx, yy) != shown_cell(prev, xx, yy),
    ensures
        redraw_inv(t, curr, diff_rows(curr, prev, y), y as int, 0),
    decreases y,
{
    if y > 0 {
        let y1 = (y - 1) as nat;
        lemma_redraw_rows(t, curr, prev, y1);
        lemma_redraw_row(t, curr, prev, diff_rows(curr, prev, y1), y1 as int, curr.width as nat);
        let t2 = term_run(t, diff_rows(curr, prev, y).0);
        assert forall|xx: int, yy: int| #![trigger (t2.0)(xx, yy)] (t2.0)(xx, yy) == if 0 <= xx < curr.width && 0 <= yy
            < curr.height && (yy < y || (yy == y && xx < 0)) {
            curr.at(xx, yy)
        } else {
            (t.0)(xx, yy)
        } by {
        }
    } else {
        assert(term_run(t, Seq::<DrawOp>::empty()) == t);
    }
}

/// Applying the output steps of a frame update to a terminal that shows
/// the previous frame leaves it showing the new frame on every cell of the
/// new frame and unchanged elsewhere, whatever colours the terminal had
/// current when the new frame draws nothing in the reset colours (and
/// otherwise when the reset colours are current).
pub proof fn lemma_frame_diff_redraws(t: TermState, curr: Buffer, prev: Option<Buffer>)
    requires
        (t.3 == Color::Reset && t.4 == Color::Reset) || draws_no_reset(curr),
        forall|x: int, y: int| 0 <= x < curr.width && 0 <= y < curr.height ==> #[trigger] (t.0)(x, y)
            == shown_cell(prev, x, y),
    ensures
        forall|x: int, y: int| #![trigger (term_run(t, frame_diff(curr, prev)).0)(x, y)]
            (term_run(t, frame_diff(curr, prev)).0)(x, y) == if 0 <= x < curr.width && 0 <= y < curr.height {
            curr.at(x, y)
        } else {
            (t.0)(x, y)
        },
{
    lemma_redraw_rows(t, curr, prev, curr.height as nat);
}

/// The first frame, with no previous one, is drawn whole: whatever the
/// terminal showed and whatever colours it had current, applying its output
/// steps leaves it showing the frame on every cell of the frame and
/// unchanged elsewhere, when the frame draws nothing in the reset colours.
pub proof fn lemma_first_frame_redraws(t: TermState, curr: Buffer)
    requires
        draws_no_reset(curr),
    ensures
        forall|x: int, y: int| #![trigger (term_run(t, frame_diff(curr, None)).0)(x, y)]
            (term_run(t, frame_diff(curr, None)).0)(x, y) == if 0 <= x < curr.width && 0 <= y < curr.height {
            curr.at(x, y)
        } else {
            (t.0)(x, y)
        },
{
    assert forall|xx: int, yy: int| 0 <= xx < curr.width && 0 <= yy < curr.height implies #[trigger] (t.0)(xx, yy)
        == shown_cell(None, xx, yy) || curr.at(xx, yy) != shown_cell(None, xx, yy) by {
        assert(curr.at(xx, yy).fg != Color::Reset);
    }
    lemma_redraw_rows(t, curr, None, curr.height as nat);
}

/// Updating to a frame that equals the previous one outputs nothing.
pub proof fn lemma_unchanged_frame_is_silent(curr: Buffer, prev: Buffer)
    requires
        curr.width == prev.width,
        curr.height == prev.height,
        forall|x: int, y: int| 0 <= x < curr.width && 0 <= y < curr.height ==> #[trigger] curr.at(x, y) == prev.at(x, y),
    ensures
        frame_diff(curr, Some(prev)) == Seq::<DrawOp>::empty(),
{
    lemma_silent_rows(curr, prev, curr.height as nat);
}

proof fn lemma_silent_row(curr: Buffer, prev: Buffer, y: int, x: nat)
    requires
        curr.width == prev.width,
        curr.height == prev.height,
        0 <= y < curr.height,
        x <= curr.width,
        forall|xx: int, yy: int| 0 <= xx < curr.width && 0 <= yy < curr.height ==> #[trigger] curr.at(xx, yy) == prev.at(xx, yy),
    ensures
        forall|s: DiffState| #[trigger] diff_row(curr, Some(prev), y, x, s) == s,
    decreases x,
{
    if x > 0 {
        let x1 = (x - 1) as nat;
        lemma_silent_row(curr, prev, y, x1);
        assert(curr.at(x1 as int, y) == prev.at(x1 as int, y));
        assert(shown_cell(Some(prev), x1 as int, y) == prev.at(x1 as int, y));
        assert forall|s: DiffState| #[trigger] diff_row(curr, Some(prev), y, x, s) == s by {
            assert(diff_row(curr, Some(prev), y, x1, s) == s);
        }
    }
}

proof fn lemma_silent_rows(curr: Buffer, prev: Buffer, y: nat)
    requires
        curr.width == prev.width,
        curr.height == prev.height,
        y <= curr.height,
        forall|xx: int, yy: int| 0 <= xx < curr.width && 0 <= yy < curr.height ==> #[trigger] curr.at(xx, yy) == prev.at(xx, yy),
    ensures
        diff_rows(curr, Some(prev), y).0 == Seq::<DrawOp>::empty(),
    decreases y,
{
    if y > 0 {
        let y1 = (y - 1) as nat;
        lemma_silent_rows(curr, prev, y1);
        lemma_silent_row(curr, prev, y1 as int, curr.width as nat);
    }
}

} // verus!
