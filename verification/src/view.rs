use vstd::prelude::*;

use crate::buffer::{Buffer, Cell, Color};
use crate::game::LootKind;
use crate::screens::{byte_len, sat_sub};
use vstd::string::StrSliceExecFns;
use vstd::utf8::{is_ascii_chars, is_ascii_chars_encode_utf8};

verus! {

/// The glyph and colour of the exit portal at a (whole) distance: brighter
/// and denser when near.
pub open spec fn exit_glyph_spec(dist: u32) -> (char, Color) {
    if dist <= 3 {
        ('█', Color::AnsiValue(226))
    } else if dist <= 7 {
        ('▓', Color::AnsiValue(220))
    } else if dist <= 12 {
        ('▒', Color::AnsiValue(214))
    } else {
        ('░', Color::AnsiValue(136))
    }
}

/// The glyph and colour of the exit portal seen at whole distance `dist`.
pub fn exit_glyph(dist: u32) -> (r: (char, Color))
    ensures
        r == exit_glyph_spec(dist),
{
    if dist <= 3 {
        ('█', Color::AnsiValue(226))
    } else if dist <= 7 {
        ('▓', Color::AnsiValue(220))
    } else if dist <= 12 {
        ('▒', Color::AnsiValue(214))
    } else {
        ('░', Color::AnsiValue(136))
    }
}

/// The grey of a wall face at (whole) distance `dist`: lighter when near,
/// and lighter on east/west faces (`side == 0`) than on north/south ones.
pub open spec fn wall_grey(dist: u32, side: u8) -> u8 {
    let (lit, dim) = if dist < 2 {
        (254u8, 250u8)
    } else if dist < 4 {
        (251u8, 246u8)
    } else if dist < 6 {
        (248u8, 243u8)
    } else if dist < 8 {
        (245u8, 240u8)
    } else if dist < 10 {
        (242u8, 237u8)
    } else if dist < 12 {
        (239u8, 234u8)
    } else {
        (236u8, 232u8)
    };
    if side == 0 {
        lit
    } else {
        dim
    }
}

/// The glyph and colour of a wall at (whole) distance `dist`: a full block
/// closer than 4, a dark shade closer than 7, a medium shade closer than 11,
/// a light shade up to 15, and fog (a blank) beyond. A distance over 15
/// that is not whole is given as 16 or more.
pub open spec fn wall_glyph_spec(dist: u32, side: u8) -> (char, Color) {
    if dist > 15 {
        (' ', Color::Black)
    } else {
        let ch = if dist < 4 {
            '█'
        } else if dist < 7 {
            '▓'
        } else if dist < 11 {
            '▒'
        } else {
            '░'
        };
        (ch, Color::AnsiValue(wall_grey(dist, side)))
    }
}

/// How dense a shading glyph is: full block, dark, medium, light shade,
/// then blank.
pub open spec fn glyph_density(c: char) -> int {
    if c == '█' {
        4
    } else if c == '▓' {
        3
    } else if c == '▒' {
        2
    } else if c == '░' {
        1
    } else {
        0
    }
}

/// How light a shading colour is: its palette index, black darkest.
pub open spec fn lightness(c: Color) -> int {
    match c {
        Color::AnsiValue(v) => v as int,
        _ => 0,
    }
}

/// Walls fade with distance: a farther wall is never drawn denser or
/// lighter than a nearer one on the same kind of face; and up to the fog,
/// an east/west face shows the same glyph as a north/south one, lighter.
pub proof fn lemma_wall_shading_fades(d1: u32, d2: u32, side: u8)
    ensures
        d1 <= d2 ==> glyph_density(wall_glyph_spec(d2, side).0) <= glyph_density(wall_glyph_spec(d1, side).0),
        d1 <= d2 ==> lightness(wall_glyph_spec(d2, side).1) <= lightness(wall_glyph_spec(d1, side).1),
        d1 <= 15 ==> wall_glyph_spec(d1, 0).0 == wall_glyph_spec(d1, 1).0,
        d1 <= 15 ==> lightness(wall_glyph_spec(d1, 0).1) > lightness(wall_glyph_spec(d1, 1).1),
{
}

/// The exit portal never fades into fog: beyond 12 it stays a dim yellow
/// light shade at every distance, and nearer it is denser and brighter;
/// a farther portal is never drawn denser or brighter than a nearer one.
pub proof fn lemma_exit_portal_always_visible(d1: u32, d2: u32)
    ensures
        glyph_density(exit_glyph_spec(d1).0) >= 1,
        d1 >= 13 ==> exit_glyph_spec(d1) == ('░', Color::AnsiValue(136)),
        d1 <= d2 ==> glyph_density(exit_glyph_spec(d2).0) <= glyph_density(exit_glyph_spec(d1).0),
        d1 <= d2 ==> lightness(exit_glyph_spec(d2).1) <= lightness(exit_glyph_spec(d1).1),
{
}

/// The glyph and colour of a wall seen at whole distance `dist` on a face
/// of `side` (0 for east/west faces, 1 for north/south ones).
pub fn wall_glyph(dist: u32, side: u8) -> (r: (char, Color))
    ensures
        r == wall_glyph_spec(dist, side),
{
    if dist > 15 {
        return (' ', Color::Black);
    }
    let ch = if dist < 4 {
        '█'
    } else if dist < 7 {
        '▓'
    } else if dist < 11 {
        '▒'
    } else {
        '░'
    };
    let (lit, dim): (u8, u8) = if dist < 2 {
        (254, 250)
    } else if dist < 4 {
        (251, 246)
    } else if dist < 6 {
        (248, 243)
    } else if dist < 8 {
        (245, 240)
    } else if dist < 10 {
        (242, 237)
    } else if dist < 12 {
        (239, 234)
    } else {
        (236, 232)
    };
    let idx = if side == 0 { lit } else { dim };
    (ch, Color::AnsiValue(idx))
}

/// `v` limited to `lo..=hi`.
pub open spec fn clamp(v: int, lo: int, hi: int) -> int {
    if v < lo {
        lo
    } else if v > hi {
        hi
    } else {
        v
    }
}

/// Half of `v`, rounded toward zero.
pub open spec fn half_toward_zero(v: int) -> int {
    if v >= 0 {
        v / 2
    } else {
        -((-v) / 2)
    }
}

/// The rows `first..=last` of a wall slice `line_h` rows tall, centred on
/// the middle row of a view `view_h` rows tall and cut to the view.
pub open spec fn slice_rows(view_h: int, line_h: int) -> (int, int) {
    let half = view_h / 2;
    let h2 = half_toward_zero(line_h);
    (if half - h2 > 0 { half - h2 } else { 0 }, if half + h2 < view_h - 1 {
        half + h2
    } else {
        view_h - 1
    })
}

/// `b` is `b0` with cell `(x, y)` of the drawing area painted `c` where
/// `paint(x, y)` holds.
pub open spec fn painted(b: Buffer, b0: Buffer, paint: spec_fn(int, int) -> bool, c: Cell) -> bool {
    &&& b.wf()
    &&& b.same_shape(b0)
    &&& forall|x: int, y: int| #[trigger] b.in_storage(x, y) ==> b.at(x, y) == if paint(x, y) && b0.in_area(x, y) {
        c
    } else {
        b0.at(x, y)
    }
}

/// The background cell at `(x, y)` of a view `vw × vh` whose rows are
/// shaded `shades`: a blank in the row's shade.
pub open spec fn background_cell(vw: int, vh: int, shades: Seq<Color>, x: int, y: int) -> Option<Cell> {
    if 0 <= x < vw && 0 <= y < vh {
        Some(Cell { ch: ' ', fg: Color::Black, bg: shades[y] })
    } else {
        None
    }
}

/// Paints the ceiling and floor of a view `view_h` rows tall and as wide
/// as the buffer: every cell a blank, on the shade given for its row.
pub fn fill_background(buf: &mut Buffer, view_h: usize, shades: &Vec<Color>)
    requires
        old(buf).wf(),
        shades@.len() == view_h,
    ensures
        overlaid(*final(buf), *old(buf), |x: int, y: int| background_cell(old(buf).width as int, view_h as int,
            shades@, x, y)),
{
    let vw = buf.width;
    let ghost b0 = *buf;
    let mut y: usize = 0;
    while y < view_h
        invariant
            y <= view_h,
            vw == b0.width,
            shades@.len() == view_h,
            buf.wf(),
            buf.same_shape(b0),
            forall|xx: int, yy: int| #[trigger] buf.in_storage(xx, yy) ==> buf.at(xx, yy) == if b0.in_area(xx, yy)
                && 0 <= xx < vw && 0 <= yy < y {
                Cell { ch: ' ', fg: Color::Black, bg: shades@[yy] }
            } else {
                b0.at(xx, yy)
            },
        decreases view_h - y,
    {
        let bg = shades[y];
        let mut x: usize = 0;
        while x < vw
            invariant
                x <= vw,
                y < view_h,
                vw == b0.width,
                shades@.len() == view_h,
                bg == shades@[y as int],
                buf.wf(),
                buf.same_shape(b0),
                forall|xx: int, yy: int| #[trigger] buf.in_storage(xx, yy) ==> buf.at(xx, yy) == if b0.in_area(xx, yy)
                    && 0 <= xx < vw && (0 <= yy < y || (yy == y && xx < x)) {
                    Cell { ch: ' ', fg: Color::Black, bg: shades@[yy] }
                } else {
                    b0.at(xx, yy)
                },
            decreases vw - x,
        {
            let ghost before = *buf;
            buf.put(x, y, ' ', Color::Black, bg);
            assert forall|xx: int, yy: int| #[trigger] buf.in_storage(xx, yy) implies buf.at(xx, yy) == if b0.in_area(
                xx,
                yy,
            ) && 0 <= xx < vw && (0 <= yy < y || (yy == y && xx < x + 1)) {
                Cell { ch: ' ', fg: Color::Black, bg: shades@[yy] }
            } else {
                b0.at(xx, yy)
            } by {
                assert(before.in_storage(xx, yy));
            }
            x = x + 1;
        }
        y = y + 1;
    }
}

/// Draws the wall slice of screen column `col`: a run of `line_h` cells
/// centred vertically in the `view_h` rows of the view, shifted by the
/// camera shake and kept inside the view, in red on dark red while the
/// damage flash is on. A slice that ends above the view's first row is
/// not accepted: its last row would wrap around to the largest index.
pub fn draw_wall_column(
    buf: &mut Buffer,
    view_h: usize,
    col: usize,
    line_h: i32,
    shake_x: i32,
    shake_y: i32,
    ch: char,
    fg: Color,
    damage_flash: bool,
)
    requires
        old(buf).wf(),
        1 <= view_h <= i32::MAX,
        col < old(buf).width,
        old(buf).width <= i32::MAX,
        i32::MIN <= col + shake_x <= i32::MAX,
        view_h / 2 + half_toward_zero(line_h as int) >= 0,
        slice_rows(view_h as int, line_h as int).0 <= slice_rows(view_h as int, line_h as int).1
            ==> slice_rows(view_h as int, line_h as int).1 + shake_y <= i32::MAX,
    ensures
        ({
            let (first, last) = slice_rows(view_h as int, line_h as int);
            let x = clamp(col + shake_x, 0, old(buf).width - 1);
            let fg1 = if damage_flash { Color::Red } else { fg };
            let bg1 = if damage_flash { Color::AnsiValue(52) } else { Color::Black };
            painted(*final(buf), *old(buf), |xx: int, yy: int| xx == x && first <= last
                && clamp(first + shake_y, 0, view_h - 1) <= yy <= clamp(last + shake_y, 0, view_h - 1),
                Cell { ch, fg: fg1, bg: bg1 })
        }),
{
    let vw = buf.width;
    let vh = view_h;
    let half = (vh / 2) as i32;
    let a = half - line_h / 2;
    let draw_s: usize = if a > 0 { a as usize } else { 0 };
    let b = half + line_h / 2;
    let draw_e_i: i32 = if b < vh as i32 - 1 { b } else { vh as i32 - 1 };
    let draw_e = draw_e_i as usize;
    let fg = if damage_flash { Color::Red } else { fg };
    let bg = if damage_flash { Color::AnsiValue(52) } else { Color::Black };
    let sc = col as i32 + shake_x;
    let sc0: usize = if sc > 0 { sc as usize } else { 0 };
    let scol = if sc0 < vw - 1 { sc0 } else { vw - 1 };
    let ghost b0 = *buf;
    let ghost lo = clamp(draw_s + shake_y, 0, vh - 1);
    let mut row = draw_s;
    while row <= draw_e
        invariant
            draw_s <= row,
            row <= draw_e + 1 || row == draw_s,
            draw_e < vh,
            vh == view_h,
            1 <= vh <= i32::MAX,
            draw_s <= draw_e ==> draw_e + shake_y <= i32::MAX,
            scol < vw,
            vw == b0.width,
            lo == clamp(draw_s + shake_y, 0, vh - 1),
            buf.wf(),
            buf.same_shape(b0),
            forall|x: int, y: int| #[trigger] buf.in_storage(x, y) ==> buf.at(x, y) == if x == scol && row > draw_s
                && lo <= y <= clamp(row - 1 + shake_y, 0, vh - 1) && b0.in_area(x, y) {
                Cell { ch, fg, bg }
            } else {
                b0.at(x, y)
            },
        decreases draw_e + 1 - row,
    {
        let sr = row as i32 + shake_y;
        let sr0: usize = if sr > 0 { sr as usize } else { 0 };
        let srow = if sr0 < vh - 1 { sr0 } else { vh - 1 };
        let ghost before = *buf;
        buf.put(scol, srow, ch, fg, bg);
        assert forall|x: int, y: int| #[trigger] buf.in_storage(x, y) implies buf.at(x, y) == if x == scol
            && row + 1 > draw_s && lo <= y <= clamp(row + shake_y, 0, vh - 1) && b0.in_area(x, y) {
            Cell { ch, fg, bg }
        } else {
            b0.at(x, y)
        } by {
            assert(before.in_storage(x, y));
        }
        row = row + 1;
    }
}


/// The gun sprite, idle or firing.
pub open spec fn gun_lines(fire: bool) -> Seq<Seq<char>> {
    if fire {
        seq!["         _______  "@, "  _______|    *>>>"@, " |_____________|  "@]
    } else {
        seq!["         _______ "@, "  _______|      >"@, " |_____________| "@]
    }
}

fn gun_line(fire: bool, i: usize) -> (r: &'static str)
    requires
        i < 3,
    ensures
        r@ == gun_lines(fire)[i as int],
{
    if fire {
        if i == 0 {
            "         _______  "
        } else if i == 1 {
            "  _______|    *>>>"
        } else {
            " |_____________|  "
        }
    } else {
        if i == 0 {
            "         _______ "
        } else if i == 1 {
            "  _______|      >"
        } else {
            " |_____________| "
        }
    }
}

/// The widest line of the gun sprite, in bytes.
pub open spec fn gun_width(fire: bool) -> int {
    let l = gun_lines(fire);
    let a = byte_len(l[0]);
    let b = byte_len(l[1]);
    let c = byte_len(l[2]);
    let ab = if a > b { a } else { b };
    if ab > c { ab } else { c }
}

proof fn lemma_gun_lines_short(fire: bool)
    ensures
        forall|i: int| 0 <= i < 3 ==> (#[trigger] gun_lines(fire)[i]).len() <= 18,
        forall|i: int| 0 <= i < 3 ==> byte_len(#[trigger] gun_lines(fire)[i]) == gun_lines(fire)[i].len(),
        gun_width(fire) <= 18,
{
    reveal_strlit("         _______  ");
    reveal_strlit("  _______|    *>>>");
    reveal_strlit(" |_____________|  ");
    reveal_strlit("         _______ ");
    reveal_strlit("  _______|      >");
    reveal_strlit(" |_____________| ");
    lemma_ascii_byte_len(gun_lines(fire)[0]);
    lemma_ascii_byte_len(gun_lines(fire)[1]);
    lemma_ascii_byte_len(gun_lines(fire)[2]);
}

/// A sequence of the gun sprite's characters is ASCII, so it has as many
/// bytes as characters.
proof fn lemma_ascii_byte_len(s: Seq<char>)
    requires
        s.len() <= 18,
        forall|i: int| 0 <= i < s.len() ==> (#[trigger] s[i] == ' ' || s[i] == '_' || s[i] == '|' || s[i] == '>'
            || s[i] == '*'),
    ensures
        byte_len(s) == s.len(),
{
    assert(is_ascii_chars(s));
    is_ascii_chars_encode_utf8(s);
}

/// The cell that the gun sprite puts at `(x, y)` of a view `vw` wide and
/// `vh` tall: the sprite sits in the bottom-right corner, one column from
/// the edge; blanks are transparent, and the muzzle flash is yellow.
pub open spec fn gun_cell(vw: int, vh: int, fire: bool, x: int, y: int) -> Option<Cell> {
    let gx = sat_sub(vw, gun_width(fire) + 1);
    let gy = sat_sub(vh, 3);
    let i = y - gy;
    let j = x - gx;
    if 0 <= i < 3 && y < vh && 0 <= j < gun_lines(fire)[i].len() && x < vw && gun_lines(fire)[i][j] != ' ' {
        let ch = gun_lines(fire)[i][j];
        if fire && (ch == '*' || ch == '>') {
            Some(Cell { ch, fg: Color::Black, bg: Color::AnsiValue(226) })
        } else {
            Some(Cell { ch, fg: Color::AnsiValue(248), bg: Color::Black })
        }
    } else {
        None
    }
}

/// The cell of the red damage frame at `(x, y)`: half blocks along the
/// four edges of the view, the top and bottom rows drawn over the sides.
pub open spec fn border_cell(vw: int, vh: int, x: int, y: int) -> Option<Cell> {
    if 0 <= x < vw && 0 <= y < vh {
        if y == vh - 1 {
            Some(Cell { ch: '▀', fg: Color::AnsiValue(196), bg: Color::AnsiValue(52) })
        } else if y == 0 {
            Some(Cell { ch: '▄', fg: Color::AnsiValue(196), bg: Color::AnsiValue(52) })
        } else if x == vw - 1 {
            Some(Cell { ch: '▐', fg: Color::AnsiValue(196), bg: Color::AnsiValue(52) })
        } else if x == 0 {
            Some(Cell { ch: '▌', fg: Color::AnsiValue(196), bg: Color::AnsiValue(52) })
        } else {
            None
        }
    } else {
        None
    }
}

/// The overlay cell at `(x, y)`: the damage frame (when on) over the gun
/// sprite over the crosshair in the middle of the view.
pub open spec fn overlay_cell(vw: int, vh: int, damage_flash: bool, gun_flash: bool, x: int, y: int) -> Option<Cell> {
    if damage_flash && border_cell(vw, vh, x, y) is Some {
        border_cell(vw, vh, x, y)
    } else if gun_cell(vw, vh, gun_flash, x, y) is Some {
        gun_cell(vw, vh, gun_flash, x, y)
    } else if x == vw / 2 && y == vh / 2 {
        Some(Cell { ch: '·', fg: Color::AnsiValue(255), bg: Color::Black })
    } else {
        None
    }
}

/// `b` is `b0` with `f(x, y)` drawn over each cell of the drawing area
/// where it is `Some`.
pub open spec fn overlaid(b: Buffer, b0: Buffer, f: spec_fn(int, int) -> Option<Cell>) -> bool {
    &&& b.wf()
    &&& b.same_shape(b0)
    &&& forall|x: int, y: int| #[trigger] b.in_storage(x, y) ==> b.at(x, y) == if b0.in_area(x, y) && f(x, y) is Some {
        f(x, y)->0
    } else {
        b0.at(x, y)
    }
}

/// Draws what lies over the 3-D view: the crosshair, the gun sprite (with
/// its muzzle flash while `gun_flash`) and, while `damage_flash`, a red
/// frame around the view. The view is the buffer's width by `view_h` rows.
pub fn draw_overlays(buf: &mut Buffer, view_h: usize, damage_flash: bool, gun_flash: bool)
    requires
        old(buf).wf(),
        damage_flash ==> (old(buf).width == 0 <==> view_h == 0),
    ensures
        overlaid(*final(buf), *old(buf), |x: int, y: int| overlay_cell(old(buf).width as int, view_h as int,
            damage_flash, gun_flash, x, y)),
{
    let vw = buf.width;
    let vh = view_h;
    let ghost b0 = *buf;

    // Crosshair
    let cx = vw / 2;
    let cy = vh / 2;
    buf.put(cx, cy, '·', Color::AnsiValue(255), Color::Black);
    let ghost b1 = *buf;

    // Gun sprite
    proof {
        lemma_gun_lines_short(gun_flash);
    }
    let mut gun_w: usize = 0;
    let mut k: usize = 0;
    while k < 3
        invariant
            k <= 3,
            gun_w == if k == 0 {
                0
            } else if k == 1 {
                byte_len(gun_lines(gun_flash)[0])
            } else if k == 2 {
                let a = byte_len(gun_lines(gun_flash)[0]);
                let b = byte_len(gun_lines(gun_flash)[1]);
                if a > b { a } else { b }
            } else {
                gun_width(gun_flash)
            },
        decreases 3 - k,
    {
        let l = gun_line(gun_flash, k).len();
        if l > gun_w {
            gun_w = l;
        }
        k = k + 1;
    }
    let gun_x = vw.saturating_sub(gun_w + 1);
    let gun_y0 = vh.saturating_sub(3);
    let mut i: usize = 0;
    while i < 3
        invariant
            i <= 3,
            vw == b0.width,
            vh == view_h,
            gun_x == sat_sub(vw as int, gun_width(gun_flash) + 1),
            gun_y0 == sat_sub(vh as int, 3),
            forall|ii: int| 0 <= ii < 3 ==> (#[trigger] gun_lines(gun_flash)[ii]).len() <= 18,
            forall|ii: int| 0 <= ii < 3 ==> byte_len(#[trigger] gun_lines(gun_flash)[ii]) == gun_lines(gun_flash)[ii].len(),
            buf.wf(),
            buf.same_shape(b0),
            forall|x: int, y: int| #[trigger] buf.in_storage(x, y) ==> buf.at(x, y) == if b0.in_area(x, y)
                && y < gun_y0 + i && gun_cell(vw as int, vh as int, gun_flash, x, y) is Some {
                gun_cell(vw as int, vh as int, gun_flash, x, y)->0
            } else {
                b1.at(x, y)
            },
        decreases 3 - i,
    {
        let y = gun_y0 + i;
        let line = gun_line(gun_flash, i);
        let n = line.unicode_len();
        let mut j: usize = 0;
        while j < n
            invariant
                j <= n,
                n == line@.len(),
                line@ == gun_lines(gun_flash)[i as int],
                i < 3,
                y == gun_y0 + i,
                vw == b0.width,
                vh == view_h,
                gun_x == sat_sub(vw as int, gun_width(gun_flash) + 1),
                gun_y0 == sat_sub(vh as int, 3),
                forall|ii: int| 0 <= ii < 3 ==> (#[trigger] gun_lines(gun_flash)[ii]).len() <= 18,
                forall|ii: int| 0 <= ii < 3 ==> byte_len(#[trigger] gun_lines(gun_flash)[ii]) == gun_lines(gun_flash)[ii].len(),
                buf.wf(),
                buf.same_shape(b0),
                forall|x: int, yy: int| #[trigger] buf.in_storage(x, yy) ==> buf.at(x, yy) == if b0.in_area(x, yy)
                    && (yy < gun_y0 + i || (yy == y && x < gun_x + j)) && gun_cell(vw as int, vh as int, gun_flash, x, yy) is Some {
                    gun_cell(vw as int, vh as int, gun_flash, x, yy)->0
                } else {
                    b1.at(x, yy)
                },
            decreases n - j,
        {
            assert(byte_len(gun_lines(gun_flash)[i as int]) == n);
            let x = gun_x + j;
            let ch = line.get_char(j);
            let ghost before = *buf;
            if y < vh && x < vw && ch != ' ' {
                let (fg, bg) = if gun_flash && (ch == '*' || ch == '>') {
                    (Color::Black, Color::AnsiValue(226))
                } else {
                    (Color::AnsiValue(248), Color::Black)
                };
                buf.put(x, y, ch, fg, bg);
            }
            assert forall|xx: int, yy: int| #[trigger] buf.in_storage(xx, yy) implies buf.at(xx, yy) == if b0.in_area(xx, yy)
                && (yy < gun_y0 + i || (yy == y && xx < gun_x + j + 1)) && gun_cell(vw as int, vh as int, gun_flash, xx, yy) is Some {
                gun_cell(vw as int, vh as int, gun_flash, xx, yy)->0
            } else {
                b1.at(xx, yy)
            } by {
                assert(before.in_storage(xx, yy));
            }
            j = j + 1;
        }
        assert forall|x: int, yy: int| #[trigger] buf.in_storage(x, yy) implies buf.at(x, yy) == if b0.in_area(x, yy)
            && yy < gun_y0 + i + 1 && gun_cell(vw as int, vh as int, gun_flash, x, yy) is Some {
            gun_cell(vw as int, vh as int, gun_flash, x, yy)->0
        } else {
            b1.at(x, yy)
        } by {
        }
        i = i + 1;
    }
    let ghost b2 = *buf;

    // Damage flash border
    if damage_flash {
        let mut y: usize = 0;
        while y < vh
            invariant
                y <= vh,
                vw == b0.width,
                vh == view_h,
                vw == 0 <==> vh == 0,
                buf.wf(),
                buf.same_shape(b0),
                forall|x: int, yy: int| #[trigger] buf.in_storage(x, yy) ==> buf.at(x, yy) == if b0.in_area(x, yy)
                    && yy < y && (x == vw - 1 || x == 0) {
                    if x == vw - 1 {
                        Cell { ch: '▐', fg: Color::AnsiValue(196), bg: Color::AnsiValue(52) }
                    } else {
                        Cell { ch: '▌', fg: Color::AnsiValue(196), bg: Color::AnsiValue(52) }
                    }
                } else {
                    b2.at(x, yy)
                },
            decreases vh - y,
        {
            let ghost before = *buf;
            buf.put(0, y, '▌', Color::AnsiValue(196), Color::AnsiValue(52));
            let ghost mid = *buf;
            buf.put(vw - 1, y, '▐', Color::AnsiValue(196), Color::AnsiValue(52));
            assert forall|x: int, yy: int| #[trigger] buf.in_storage(x, yy) implies buf.at(x, yy) == if b0.in_area(x, yy)
                && yy < y + 1 && (x == vw - 1 || x == 0) {
                if x == vw - 1 {
                    Cell { ch: '▐', fg: Color::AnsiValue(196), bg: Color::AnsiValue(52) }
                } else {
                    Cell { ch: '▌', fg: Color::AnsiValue(196), bg: Color::AnsiValue(52) }
                }
            } else {
                b2.at(x, yy)
            } by {
                assert(before.in_storage(x, yy));
                assert(mid.in_storage(x, yy));
            }
            y = y + 1;
        }
        let ghost b3 = *buf;
        let mut x: usize = 0;
        while x < vw
            invariant
                x <= vw,
                vw == b0.width,
                vh == view_h,
                vw == 0 <==> vh == 0,
                buf.wf(),
                buf.same_shape(b0),
                forall|xx: int, yy: int| #[trigger] buf.in_storage(xx, yy) ==> buf.at(xx, yy) == if b0.in_area(xx, yy)
                    && xx < x && (yy == vh - 1 || yy == 0) {
                    if yy == vh - 1 {
                        Cell { ch: '▀', fg: Color::AnsiValue(196), bg: Color::AnsiValue(52) }
                    } else {
                        Cell { ch: '▄', fg: Color::AnsiValue(196), bg: Color::AnsiValue(52) }
                    }
                } else {
                    b3.at(xx, yy)
                },
            decreases vw - x,
        {
            let ghost before = *buf;
            buf.put(x, 0, '▄', Color::AnsiValue(196), Color::AnsiValue(52));
            let ghost mid = *buf;
            buf.put(x, vh - 1, '▀', Color::AnsiValue(196), Color::AnsiValue(52));
            assert forall|xx: int, yy: int| #[trigger] buf.in_storage(xx, yy) implies buf.at(xx, yy) == if b0.in_area(xx, yy)
                && xx < x + 1 && (yy == vh - 1 || yy == 0) {
                if yy == vh - 1 {
                    Cell { ch: '▀', fg: Color::AnsiValue(196), bg: Color::AnsiValue(52) }
                } else {
                    Cell { ch: '▄', fg: Color::AnsiValue(196), bg: Color::AnsiValue(52) }
                }
            } else {
                b3.at(xx, yy)
            } by {
                assert(before.in_storage(xx, yy));
                assert(mid.in_storage(xx, yy));
            }
            x = x + 1;
        }
        assert forall|xx: int, yy: int| #[trigger] buf.in_storage(xx, yy) implies buf.at(xx, yy) == if b0.in_area(xx, yy)
            && overlay_cell(vw as int, vh as int, damage_flash, gun_flash, xx, yy) is Some {
            overlay_cell(vw as int, vh as int, damage_flash, gun_flash, xx, yy)->0
        } else {
            b0.at(xx, yy)
        } by {
            assert(b1.in_storage(xx, yy));
            assert(b2.in_storage(xx, yy));
            assert(b3.in_storage(xx, yy));
        }
    } else {
        assert forall|xx: int, yy: int| #[trigger] buf.in_storage(xx, yy) implies buf.at(xx, yy) == if b0.in_area(xx, yy)
            && overlay_cell(vw as int, vh as int, damage_flash, gun_flash, xx, yy) is Some {
            overlay_cell(vw as int, vh as int, damage_flash, gun_flash, xx, yy)->0
        } else {
            b0.at(xx, yy)
        } by {
            assert(b1.in_storage(xx, yy));
        }
    }
}


/// How a loot item looks: a white '+' on dark green for a health pack, a
/// black '*' on yellow for an ammo pack (glyph, foreground, background).
pub fn loot_look(kind: LootKind) -> (r: (char, Color, Color))
    ensures
        r == if kind == LootKind::Health {
            ('+', Color::White, Color::AnsiValue(22))
        } else {
            ('*', Color::Black, Color::AnsiValue(220))
        },
{
    match kind {
        LootKind::Health => ('+', Color::White, Color::AnsiValue(22)),
        LootKind::Ammo => ('*', Color::Black, Color::AnsiValue(220)),
    }
}

/// How an enemy looks: a white 'M' on red while alive, a grey 'X' once
/// dead (glyph, foreground, background).
pub fn enemy_look(alive: bool) -> (r: (char, Color, Color))
    ensures
        r == if alive {
            ('M', Color::White, Color::AnsiValue(124))
        } else {
            ('X', Color::AnsiValue(240), Color::Black)
        },
{
    if alive {
        ('M', Color::White, Color::AnsiValue(124))
    } else {
        ('X', Color::AnsiValue(240), Color::Black)
    }
}

/// Half the width of a sprite `sprite_h` rows tall: it is about half as
/// wide as tall (a character cell is about twice as tall as wide), and at
/// least two columns wide.
pub open spec fn sprite_half_width(sprite_h: int) -> int {
    let w0 = half_toward_zero(sprite_h) + 1;
    (if w0 > 2 { w0 } else { 2 }) / 2
}

/// The screen block of a sprite `sprite_h` rows tall centred on column
/// `screen_x` and on the middle row of a view `vw × vh`: columns
/// `col0..=col1` and rows `row0..=row1`, before cutting to the view.
pub open spec fn sprite_box(vw: int, vh: int, screen_x: int, sprite_h: int) -> (int, int, int, int) {
    let half = vh / 2;
    let h2 = half_toward_zero(sprite_h);
    let w2 = sprite_half_width(sprite_h);
    let row0 = if half - h2 > 0 { half - h2 } else { 0 };
    let row1 = if half + h2 < vh - 1 { half + h2 } else { vh - 1 };
    let col0 = if screen_x - w2 > 0 { screen_x - w2 } else { 0 };
    let col1 = if screen_x + w2 < vw - 1 { screen_x + w2 } else { vw - 1 };
    (col0, col1, row0, row1)
}

/// The cell a sprite paints at `(x, y)`, if any: inside its block and the
/// view, on a column where it is in front of the wall; the centre column
/// shows its glyph, the others solid blocks.
pub open spec fn sprite_cell(vw: int, vh: int, screen_x: int, sprite_h: int, visible: Seq<bool>, ch: char,
    fg: Color, bg: Color, x: int, y: int) -> Option<Cell> {
    let bx = sprite_box(vw, vh, screen_x, sprite_h);
    if bx.0 <= x <= bx.1 && 0 <= x < vw && visible[x] && bx.2 <= y <= bx.3 && 0 <= y < vh {
        Some(Cell { ch: if x == screen_x { ch } else { '█' }, fg, bg })
    } else {
        None
    }
}

/// The block of a sprite `h >= 0` rows tall, away from the edges of the
/// view, is centred on column `screen_x` and on the middle row `vh / 2`:
/// it spans `h / 2` rows above and below the middle and
/// `max(h / 2 + 1, 2) / 2` columns left and right of the centre, so for
/// `h >= 2` it is about half as wide in columns as it is tall in rows.
pub proof fn lemma_sprite_box_shape(vw: int, vh: int, screen_x: int, h: int)
    requires
        h >= 0,
        screen_x - h - 1 >= 0,
        screen_x + h + 1 < vw,
        vh / 2 - h / 2 >= 0,
        vh / 2 + h / 2 < vh,
    ensures
        ({
            let b = sprite_box(vw, vh, screen_x, h);
            let w = (if h / 2 + 1 > 2 { h / 2 + 1 } else { 2 }) / 2;
            &&& b.0 == screen_x - w && b.1 == screen_x + w
            &&& b.2 == vh / 2 - h / 2 && b.3 == vh / 2 + h / 2
            &&& h >= 2 ==> h / 2 <= b.1 - b.0 + 1 <= h / 2 + 2
        }),
{
}

/// Draws one sprite of a view `vh` rows tall and as wide as the buffer:
/// a block `sprite_h` rows tall and about half as wide, centred on screen
/// column `screen_x`, on the columns where `visible` says it is in front
/// of the wall. Its centre column shows `ch`; the rest are solid blocks.
pub fn draw_sprite(
    buf: &mut Buffer,
    view_h: usize,
    screen_x: i32,
    sprite_h: i32,
    visible: &Vec<bool>,
    ch: char,
    fg: Color,
    bg: Color,
)
    requires
        old(buf).wf(),
        old(buf).width <= i32::MAX,
        view_h <= i32::MAX,
        visible@.len() == old(buf).width,
        i32::MIN <= screen_x - sprite_half_width(sprite_h as int),
        screen_x + sprite_half_width(sprite_h as int) <= i32::MAX,
    ensures
        overlaid(*final(buf), *old(buf), |x: int, y: int| sprite_cell(old(buf).width as int, view_h as int,
            screen_x as int, sprite_h as int, visible@, ch, fg, bg, x, y)),
{
    let vw = buf.width;
    let vh = view_h;
    let half = (vh / 2) as i32;
    let ghost b0 = *buf;
    let ghost bx = sprite_box(vw as int, vh as int, screen_x as int, sprite_h as int);
    let w0 = (sprite_h / 2) + 1;
    let sprite_w = if w0 > 2 { w0 } else { 2 };
    let a = half - sprite_h / 2;
    let row0 = if a > 0 { a } else { 0 };
    let b = half + sprite_h / 2;
    let row1 = if b < vh as i32 - 1 { b } else { vh as i32 - 1 };
    let c = screen_x - sprite_w / 2;
    let col0 = if c > 0 { c } else { 0 };
    let d = screen_x + sprite_w / 2;
    let col1 = if d < vw as i32 - 1 { d } else { vw as i32 - 1 };
    assert(bx == (col0 as int, col1 as int, row0 as int, row1 as int));

    let mut col = col0;
    while col <= col1
        invariant
            col0 <= col,
            col <= col1 + 1 || col == col0,
            0 <= col0,
            col1 < i32::MAX,
            0 <= row0,
            row1 < i32::MAX,
            vw == b0.width,
            vh == view_h,
            vw <= i32::MAX,
            vh <= i32::MAX,
            visible@.len() == vw,
            bx == (col0 as int, col1 as int, row0 as int, row1 as int),
            bx == sprite_box(vw as int, vh as int, screen_x as int, sprite_h as int),
            buf.wf(),
            buf.same_shape(b0),
            forall|x: int, y: int| #[trigger] buf.in_storage(x, y) ==> buf.at(x, y) == if b0.in_area(x, y) && x < col
                && sprite_cell(vw as int, vh as int, screen_x as int, sprite_h as int, visible@, ch, fg, bg, x, y) is Some {
                sprite_cell(vw as int, vh as int, screen_x as int, sprite_h as int, visible@, ch, fg, bg, x, y)->0
            } else {
                b0.at(x, y)
            },
        decreases col1 + 1 - col,
    {
        if col < 0 || col >= vw as i32 || !visible[col as usize] {
            assert forall|x: int, y: int| #[trigger] buf.in_storage(x, y) implies buf.at(x, y) == if b0.in_area(x, y)
                && x < col + 1
                && sprite_cell(vw as int, vh as int, screen_x as int, sprite_h as int, visible@, ch, fg, bg, x, y) is Some {
                sprite_cell(vw as int, vh as int, screen_x as int, sprite_h as int, visible@, ch, fg, bg, x, y)->0
            } else {
                b0.at(x, y)
            } by {
                if x == col {
                    assert(sprite_cell(vw as int, vh as int, screen_x as int, sprite_h as int, visible@, ch, fg, bg, x, y) is None);
                }
            }
            col = col + 1;
            continue;
        }
        let draw_ch = if col == screen_x { ch } else { '█' };
        assert forall|x: int, y: int| #[trigger] buf.in_storage(x, y) implies buf.at(x, y) == if b0.in_area(x, y)
            && (x < col || (x == col && y < row0))
            && sprite_cell(vw as int, vh as int, screen_x as int, sprite_h as int, visible@, ch, fg, bg, x, y) is Some {
            sprite_cell(vw as int, vh as int, screen_x as int, sprite_h as int, visible@, ch, fg, bg, x, y)->0
        } else {
            b0.at(x, y)
        } by {
            if x == col && y < row0 {
                assert(sprite_cell(vw as int, vh as int, screen_x as int, sprite_h as int, visible@, ch, fg, bg, x, y) is None);
            }
        }
        let mut row = row0;
        while row <= row1
            invariant
                row0 <= row,
                row <= row1 + 1 || row == row0,
                0 <= row0,
                row1 < i32::MAX,
                0 <= col < vw,
                col0 <= col <= col1,
                visible@[col as int],
                draw_ch == if col == screen_x { ch } else { '█' },
                vw == b0.width,
                vh == view_h,
                vw <= i32::MAX,
                vh <= i32::MAX,
                visible@.len() == vw,
                bx == (col0 as int, col1 as int, row0 as int, row1 as int),
                bx == sprite_box(vw as int, vh as int, screen_x as int, sprite_h as int),
                buf.wf(),
                buf.same_shape(b0),
                forall|x: int, y: int| #[trigger] buf.in_storage(x, y) ==> buf.at(x, y) == if b0.in_area(x, y)
                    && (x < col || (x == col && y < row))
                    && sprite_cell(vw as int, vh as int, screen_x as int, sprite_h as int, visible@, ch, fg, bg, x, y) is Some {
                    sprite_cell(vw as int, vh as int, screen_x as int, sprite_h as int, visible@, ch, fg, bg, x, y)->0
                } else {
                    b0.at(x, y)
                },
            decreases row1 + 1 - row,
        {
            if row >= 0 && row < vh as i32 {
                let ghost before = *buf;
                assert(sprite_cell(vw as int, vh as int, screen_x as int, sprite_h as int, visible@, ch, fg, bg,
                    col as int, row as int) == Some(Cell { ch: draw_ch, fg, bg }));
                buf.put(col as usize, row as usize, draw_ch, fg, bg);
                assert forall|x: int, y: int| #[trigger] buf.in_storage(x, y) implies buf.at(x, y) == if b0.in_area(x, y)
                    && (x < col || (x == col && y < row + 1))
                    && sprite_cell(vw as int, vh as int, screen_x as int, sprite_h as int, visible@, ch, fg, bg, x, y) is Some {
                    sprite_cell(vw as int, vh as int, screen_x as int, sprite_h as int, visible@, ch, fg, bg, x, y)->0
                } else {
                    b0.at(x, y)
                } by {
                    assert(before.in_storage(x, y));
                }
            } else {
                assert(sprite_cell(vw as int, vh as int, screen_x as int, sprite_h as int, visible@, ch, fg, bg,
                    col as int, row as int) is None);
            }
            row = row + 1;
        }
        assert forall|x: int, y: int| #[trigger] buf.in_storage(x, y) implies buf.at(x, y) == if b0.in_area(x, y)
            && x < col + 1
            && sprite_cell(vw as int, vh as int, screen_x as int, sprite_h as int, visible@, ch, fg, bg, x, y) is Some {
            sprite_cell(vw as int, vh as int, screen_x as int, sprite_h as int, visible@, ch, fg, bg, x, y)->0
        } else {
            b0.at(x, y)
        } by {
            if x == col && y >= row {
                assert(sprite_cell(vw as int, vh as int, screen_x as int, sprite_h as int, visible@, ch, fg, bg, x, y) is None);
            }
        }
        col = col + 1;
    }
}

} // verus!
