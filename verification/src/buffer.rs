use vstd::prelude::*;
use vstd::string::StrSliceExecFns;

verus! {

/// Terminal colours used by the renderer: the named colours it draws with
/// and the 256-colour palette.
#[derive(Clone, Copy, Debug, PartialEq, Eq, Structural)]
pub enum Color {
    Reset,
    Black,
    Red,
    White,
    AnsiValue(u8),
}

/// One character cell of the screen.
#[derive(Clone, Copy, Debug, PartialEq, Eq, Structural)]
pub struct Cell {
    pub ch: char,
    pub fg: Color,
    pub bg: Color,
}

/// A blank cell: a space on black.
pub open spec fn blank_cell() -> Cell {
    Cell { ch: ' ', fg: Color::Black, bg: Color::Black }
}

impl Cell {
    /// A blank cell: a space on black.
    pub fn empty() -> (c: Cell)
        ensures
            c == blank_cell(),
    {
        Cell { ch: ' ', fg: Color::Black, bg: Color::Black }
    }
}

/// A whole frame of character cells. Drawing is clipped to
/// `width × height`; the cell storage always has at least one row and one
/// column.
pub struct Buffer {
    pub cells: Vec<Vec<Cell>>,
    pub width: usize,
    pub height: usize,
}

pub open spec fn max1(n: usize) -> int {
    if n == 0 {
        1
    } else {
        n as int
    }
}

/// The storage of a new blank `w × h` frame.
pub open spec fn blank_rows(w: usize, h: usize) -> Seq<Seq<Cell>> {
    Seq::new(max1(h) as nat, |y: int| Seq::new(max1(w) as nat, |x: int| blank_cell()))
}

impl Buffer {
    /// The cells, row by row.
    pub open spec fn rows(self) -> Seq<Seq<Cell>> {
        self.cells@.map_values(|r: Vec<Cell>| r@)
    }

    /// The storage covers the drawing area.
    pub open spec fn wf(self) -> bool {
        &&& self.cells@.len() >= self.height
        &&& forall|y: int| 0 <= y < self.cells@.len() ==> (#[trigger] self.cells@[y]@).len() >= self.width
    }

    /// `other` has the same drawing area and the same storage shape.
    pub open spec fn same_shape(self, other: Buffer) -> bool {
        &&& self.width == other.width
        &&& self.height == other.height
        &&& self.cells@.len() == other.cells@.len()
        &&& forall|y: int| 0 <= y < self.cells@.len() ==> (#[trigger] self.cells@[y]@).len() == other.cells@[y]@.len()
    }

    /// Cell `(x, y)` of the storage.
    pub open spec fn at(self, x: int, y: int) -> Cell {
        self.cells@[y]@[x]
    }

    /// `(x, y)` lies in the storage.
    pub open spec fn in_storage(self, x: int, y: int) -> bool {
        0 <= y < self.cells@.len() && 0 <= x < self.cells@[y]@.len()
    }

    /// `(x, y)` lies in the drawing area.
    pub open spec fn in_area(self, x: int, y: int) -> bool {
        0 <= x < self.width && 0 <= y < self.height
    }

    /// A blank `w × h` frame.
    pub fn new(w: usize, h: usize) -> (b: Self)
        ensures
            b.width == w,
            b.height == h,
            b.wf(),
            b.rows() == blank_rows(w, h),
    {
        let rw = if w > 1 { w } else { 1 };
        let rh = if h > 1 { h } else { 1 };
        let mut cells: Vec<Vec<Cell>> = Vec::new();
        let mut y: usize = 0;
        while y < rh
            invariant
                y <= rh,
                rw == max1(w),
                rh == max1(h),
                cells@.len() == y,
                forall|yy: int| 0 <= yy < y ==> (#[trigger] cells@[yy]@) == Seq::new(max1(w) as nat, |x: int| blank_cell()),
            decreases rh - y,
        {
            let mut row: Vec<Cell> = Vec::new();
            let mut x: usize = 0;
            while x < rw
                invariant
                    x <= rw,
                    row@.len() == x,
                    forall|xx: int| 0 <= xx < x ==> #[trigger] row@[xx] == blank_cell(),
                decreases rw - x,
            {
                row.push(Cell::empty());
                x = x + 1;
            }
            assert(row@ =~= Seq::new(max1(w) as nat, |x: int| blank_cell()));
            cells.push(row);
            y = y + 1;
        }
        let b = Buffer { cells, width: w, height: h };
        assert(b.rows() =~= blank_rows(w, h));
        b
    }

    /// Writes one cell; writes outside the drawing area are dropped.
    pub fn put(&mut self, x: usize, y: usize, ch: char, fg: Color, bg: Color)
        requires
            old(self).wf(),
        ensures
            final(self).wf(),
            final(self).same_shape(*old(self)),
            forall|xx: int, yy: int| #[trigger] final(self).in_storage(xx, yy) ==>
                final(self).at(xx, yy) == if xx == x && yy == y && old(self).in_area(xx, yy) {
                    Cell { ch, fg, bg }
                } else {
                    old(self).at(xx, yy)
                },
    {
        if x < self.width && y < self.height {
            self.cells[y][x] = Cell { ch, fg, bg };
        }
    }

    /// Writes the characters of `s` left to right from `(x, y)`, one cell
    /// each, clipped to the drawing area.
    pub fn put_str(&mut self, x: usize, y: usize, s: &str, fg: Color, bg: Color)
        requires
            old(self).wf(),
            x + s@.len() <= usize::MAX + 1,
        ensures
            final(self).wf(),
            final(self).same_shape(*old(self)),
            forall|xx: int, yy: int| #[trigger] final(self).in_storage(xx, yy) ==>
                final(self).at(xx, yy) == if yy == y && x <= xx < x + s@.len() && old(self).in_area(xx, yy) {
                    Cell { ch: s@[xx - x], fg, bg }
                } else {
                    old(self).at(xx, yy)
                },
    {
        let n = s.unicode_len();
        let ghost b0 = *self;
        let mut i: usize = 0;
        while i < n
            invariant
                i <= n,
                n == s@.len(),
                x + n <= usize::MAX + 1,
                self.wf(),
                self.same_shape(b0),
                forall|xx: int, yy: int| #[trigger] self.in_storage(xx, yy) ==>
                    self.at(xx, yy) == if yy == y && x <= xx < x + i && b0.in_area(xx, yy) {
                        Cell { ch: s@[xx - x], fg, bg }
                    } else {
                        b0.at(xx, yy)
                    },
            decreases n - i,
        {
            let ch = s.get_char(i);
            let ghost before = *self;
            self.put(x + i, y, ch, fg, bg);
            assert forall|xx: int, yy: int| #[trigger] self.in_storage(xx, yy) implies
                self.at(xx, yy) == if yy == y && x <= xx < x + i + 1 && b0.in_area(xx, yy) {
                    Cell { ch: s@[xx - x], fg, bg }
                } else {
                    b0.at(xx, yy)
                } by {
                assert(before.in_storage(xx, yy));
            }
            i = i + 1;
        }
    }
}

impl Buffer {
    /// Writes the characters of `s` left to right from `(x, y)`, one cell
    /// each, clipped to the drawing area.
    pub fn put_chars(&mut self, x: usize, y: usize, s: &Vec<char>, fg: Color, bg: Color)
        requires
            old(self).wf(),
            x + s@.len() <= usize::MAX + 1,
        ensures
            final(self).wf(),
            final(self).same_shape(*old(self)),
            forall|xx: int, yy: int| #[trigger] final(self).in_storage(xx, yy) ==>
                final(self).at(xx, yy) == if yy == y && x <= xx < x + s@.len() && old(self).in_area(xx, yy) {
                    Cell { ch: s@[xx - x], fg, bg }
                } else {
                    old(self).at(xx, yy)
                },
    {
        let n = s.len();
        let ghost b0 = *self;
        let mut i: usize = 0;
        while i < n
            invariant
                i <= n,
                n == s@.len(),
                x + n <= usize::MAX + 1,
                self.wf(),
                self.same_shape(b0),
                forall|xx: int, yy: int| #[trigger] self.in_storage(xx, yy) ==>
                    self.at(xx, yy) == if yy == y && x <= xx < x + i && b0.in_area(xx, yy) {
                        Cell { ch: s@[xx - x], fg, bg }
                    } else {
                        b0.at(xx, yy)
                    },
            decreases n - i,
        {
            let ch = s[i];
            let ghost before = *self;
            self.put(x + i, y, ch, fg, bg);
            assert forall|xx: int, yy: int| #[trigger] self.in_storage(xx, yy) implies
                self.at(xx, yy) == if yy == y && x <= xx < x + i + 1 && b0.in_area(xx, yy) {
                    Cell { ch: s@[xx - x], fg, bg }
                } else {
                    b0.at(xx, yy)
                } by {
                assert(before.in_storage(xx, yy));
            }
            i = i + 1;
        }
    }
}

} // verus!
