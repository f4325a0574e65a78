//! A character console built on a framebuffer.
//!
//! Deliberately the same shape as a firmware text console: a grid of cells,
//! a cursor, a current colour pair. That is what lets every menu in
//! [`crate::ui`] be written once and drawn by either.
//!
//! The one thing it does differently is when pixels move. [`Console::clear`]
//! does not touch the framebuffer; it blanks the grid, and
//! [`Console::flush`] later repaints only the cells whose contents actually
//! changed. The menus clear and redraw on every keypress, so a `clear` that
//! really filled the screen would show as a black flash under the cursor
//! each time the operator moved it. Diffing makes moving the highlight bar
//! cost two rows of repaint instead of a whole screen.

use crate::gfx::{
    a_cell_depends_on_the_shape, rgb, rgb_of, Color, Font, Framebuffer, Rgb, Rotation,
};
use crate::text::to_chars;
use vstd::arithmetic::div_mod::{lemma_div_is_ordered_by_denominator, lemma_fundamental_div_mod};
use vstd::prelude::*;

verus! {

/// The smallest grid the menus were laid out against. Nothing narrower or
/// shorter is offered, automatically or on request.
pub const MIN_COLS: usize = 80;

pub const MIN_ROWS: usize = 25;

/// The line length aimed for when choosing a cell size.
///
/// Picking the *largest* cell that clears the minimum was the obvious rule
/// and the wrong one: on any screen that cleared 80 columns by a little, it
/// chose the coarsest size that fitted and left long device paths truncated
/// and reports paginated that did not need to be. Aiming at a line length
/// instead lands on 12x24 and 106x33 on a Deck.
pub const TARGET_COLS: usize = 104;

/// How many cell sizes there are.
pub const SIZES: usize = 3;

/// The cell sizes available, largest first.
///
/// Largest first is load-bearing in two places: [`Console::resize_text`]
/// reads "bigger" as one step *down* the index, and the automatic choice
/// falls back to the last entry when nothing clears the minimum, which has
/// to be the smallest to stand a chance.
pub open spec fn cell(size: int) -> (int, int) {
    if size == 0 {
        (16, 32)
    } else if size == 1 {
        (12, 24)
    } else {
        (8, 16)
    }
}

/// The cell sizes available, largest first.
pub fn cell_size(size: usize) -> (r: (usize, usize))
    ensures
        (r.0 as int, r.1 as int) == cell(size as int),
{
    if size == 0 {
        (16, 32)
    } else if size == 1 {
        (12, 24)
    } else {
        (8, 16)
    }
}

/// A cell size yields a grid the menus fit in.
pub open spec fn roomy(size: int, width: int, height: int) -> bool {
    width / cell(size).0 >= MIN_COLS && height / cell(size).1 >= MIN_ROWS
}

/// Whether a cell size yields a grid the menus fit in.
pub fn fits(size: usize, width: usize, height: usize) -> (r: bool)
    ensures
        r == roomy(size as int, width as int, height as int),
{
    let (w, h) = cell_size(size);
    width / w >= MIN_COLS && height / h >= MIN_ROWS
}

/// A smaller cell fits wherever a larger one does.
pub proof fn smaller_cells_fit_too(size: int, width: int, height: int)
    requires
        0 <= size < SIZES - 1,
        0 <= width,
        0 <= height,
        roomy(size, width, height),
    ensures
        roomy(size + 1, width, height),
{
    lemma_div_is_ordered_by_denominator(width, cell(size + 1).0, cell(size).0);
    lemma_div_is_ordered_by_denominator(height, cell(size + 1).1, cell(size).1);
}

/// How far a cell size misses the line length aimed for.
pub open spec fn miss(size: int, width: int) -> int {
    let cols = width / cell(size).0;
    if cols < TARGET_COLS {
        TARGET_COLS - cols
    } else {
        cols - TARGET_COLS
    }
}

/// The first of the nearest sizes that fit, among the first `n`.
pub open spec fn nearest(width: int, height: int, n: nat) -> Option<int>
    decreases n,
{
    if n == 0 {
        None
    } else {
        let size = n - 1;
        let before = nearest(width, height, (n - 1) as nat);
        if !roomy(size, width, height) {
            before
        } else {
            match before {
                Some(best) => if miss(size, width) < miss(best, width) {
                    Some(size)
                } else {
                    before
                },
                None => Some(size),
            }
        }
    }
}

/// The cell size to start with: whichever lands nearest [`TARGET_COLS`],
/// among those that fit, or the smallest if none does.
pub open spec fn automatic_size(width: int, height: int) -> int {
    match nearest(width, height, SIZES as nat) {
        Some(size) => size,
        None => SIZES - 1,
    }
}

proof fn nearest_is_nearest(width: int, height: int, n: nat, size: int)
    requires
        0 <= size < n,
        roomy(size, width, height),
    ensures
        nearest(width, height, n) matches Some(best) && 0 <= best < n && roomy(best, width, height)
            && miss(best, width) <= miss(size, width),
    decreases n,
{
    if size < n - 1 {
        nearest_is_nearest(width, height, (n - 1) as nat, size);
    } else {
        nearest_is_some_size(width, height, (n - 1) as nat);
    }
}

proof fn nearest_is_some_size(width: int, height: int, n: nat)
    ensures
        nearest(width, height, n) matches Some(best) ==> 0 <= best < n && roomy(
            best,
            width,
            height,
        ),
    decreases n,
{
    if n > 0 {
        nearest_is_some_size(width, height, (n - 1) as nat);
    }
}

/// Where any size fits, the one chosen fits and none that fits comes nearer
/// to the line length aimed for.
pub proof fn the_automatic_size_is_nearest(width: int, height: int, size: int)
    requires
        0 <= size < SIZES,
        roomy(size, width, height),
    ensures
        0 <= automatic_size(width, height) < SIZES,
        roomy(automatic_size(width, height), width, height),
        miss(automatic_size(width, height), width) <= miss(size, width),
{
    nearest_is_nearest(width, height, SIZES as nat, size);
}

/// The cell size to start with: whichever lands nearest [`TARGET_COLS`],
/// among those that fit.
///
/// Falls back to the smallest, which is the only honest answer on a
/// framebuffer too small for any of them: the menus will be clipped, but
/// clipped is better than not drawn.
pub fn automatic(width: usize, height: usize) -> (r: usize)
    ensures
        r == automatic_size(width as int, height as int),
        r < SIZES,
{
    let mut best: Option<usize> = None;
    let mut closest: usize = 0;
    let mut size: usize = 0;
    while size < SIZES
        invariant
            size <= SIZES,
            match best {
                Some(b) => b < size && nearest(width as int, height as int, size as nat) == Some(
                    b as int,
                ) && closest == miss(b as int, width as int),
                None => nearest(width as int, height as int, size as nat) is None,
            },
        decreases SIZES - size,
    {
        if fits(size, width, height) {
            let cols: usize = width / cell_size(size).0;
            let distance: usize = if cols < TARGET_COLS {
                TARGET_COLS - cols
            } else {
                cols - TARGET_COLS
            };
            if best.is_none() || distance < closest {
                closest = distance;
                best = Some(size);
            }
        }
        size += 1;
    }
    match best {
        Some(b) => b,
        None => SIZES - 1,
    }
}

/// A grid and the cell size that produced it, for the display screen.
#[derive(Clone, Copy, PartialEq, Eq, Structural, Debug)]
pub struct Layout {
    pub cols: usize,
    pub rows: usize,
    pub cell_w: usize,
    pub cell_h: usize,
}

/// What a framebuffer of this logical size comes to in cells of this size.
pub open spec fn layout_in(size: int, width: int, height: int) -> Layout {
    Layout {
        cols: (width / cell(size).0) as usize,
        rows: (height / cell(size).1) as usize,
        cell_w: cell(size).0 as usize,
        cell_h: cell(size).1 as usize,
    }
}

/// What a framebuffer of this logical size would be laid out as, if it were
/// the one in use.
///
/// The display screen's answer to "what would that mode be worth?", and it
/// has to be [`automatic`]'s answer rather than a guess of its own, or the
/// number shown would not be the number a mode change delivered.
pub fn layout_for(width: usize, height: usize) -> (r: Layout)
    ensures
        r == layout_in(automatic_size(width as int, height as int), width as int, height as int),
{
    let (cell_w, cell_h) = cell_size(automatic(width, height));
    Layout { cols: width / cell_w, rows: height / cell_h, cell_w, cell_h }
}

/// One position of the grid.
#[derive(Clone, Copy, PartialEq, Eq, Structural, Debug)]
pub struct Cell {
    /// ASCII only; everything drawn is.
    pub ch: u8,
    pub fg: Rgb,
    pub bg: Rgb,
}

/// What came of asking for another framebuffer mode.
pub enum ModeChange {
    /// It is in force, and this is its framebuffer.
    InForce(Framebuffer),
    /// The firmware would not set it; nothing changed.
    Refused,
    /// It was set, could not be drawn in, and the old one was put back.
    Restored,
}

pub struct Console {
    pub fb: Framebuffer,
    /// Which of the cell sizes is in use.
    pub font: usize,
    pub cols: usize,
    pub rows: usize,
    /// Logical pixel position of cell (0, 0). The grid rarely divides the
    /// screen exactly, and the remainder looks like a border rather than a
    /// mistake when it is split between both sides.
    pub origin: (usize, usize),
    /// What the next flush should put on the screen.
    pub cells: Vec<Cell>,
    /// What is believed to be on the screen. `None` means "unknown", which
    /// is the honest answer after a resize or a rotation.
    pub shown: Vec<Option<Cell>>,
    pub cursor: (usize, usize),
    pub fg: Rgb,
    pub bg: Rgb,
}

/// The grid and the cursor.
pub struct Grid {
    pub cells: Seq<Cell>,
    pub col: int,
    pub row: int,
}

/// One character written at the cursor.
///
/// A full row wraps; anything below the last row is dropped.
pub open spec fn typed(g: Grid, cols: int, rows: int, fg: Rgb, bg: Rgb, ch: char) -> Grid {
    if ch == '\n' {
        Grid { col: 0, row: g.row + 1, ..g }
    } else if ch == '\r' {
        Grid { col: 0, ..g }
    } else {
        let (col, row) = if g.col >= cols {
            (0int, g.row + 1)
        } else {
            (g.col, g.row)
        };
        let byte = if (ch as u32) <= 0xFF {
            (ch as u32) as u8
        } else {
            0x3F
        };
        Grid {
            cells: if row < rows {
                g.cells.update(row * cols + col, Cell { ch: byte, fg, bg })
            } else {
                g.cells
            },
            col: col + 1,
            row,
        }
    }
}

/// Text written at the cursor.
pub open spec fn typed_all(g: Grid, cols: int, rows: int, fg: Rgb, bg: Rgb, text: Seq<char>) -> Grid
    decreases text.len(),
{
    if text.len() == 0 {
        g
    } else {
        typed(typed_all(g, cols, rows, fg, bg, text.drop_last()), cols, rows, fg, bg, text.last())
    }
}

proof fn typing_moves_at_most_one(g: Grid, cols: int, rows: int, fg: Rgb, bg: Rgb, text: Seq<char>)
    requires
        0 <= g.col,
        0 <= g.row,
    ensures
        ({
            let t = typed_all(g, cols, rows, fg, bg, text);
            &&& 0 <= t.col <= g.col + text.len()
            &&& 0 <= t.row <= g.row + text.len()
        }),
    decreases text.len(),
{
    if text.len() > 0 {
        typing_moves_at_most_one(g, cols, rows, fg, bg, text.drop_last());
    }
}

/// A grid position is inside the grid.
proof fn position_is_inside(col: int, row: int, cols: int, rows: int)
    requires
        0 <= col < cols,
        0 <= row < rows,
    ensures
        0 <= row * cols + col < cols * rows,
        0 <= row * cols <= row * cols + col,
{
    assert(0 <= row * cols + col < cols * rows && 0 <= row * cols) by (nonlinear_arith)
        requires
            0 <= col < cols,
            0 <= row < rows,
    ;
}

impl Console {
    /// The grid is the one the framebuffer and the cell size make.
    pub open spec fn wf(self) -> bool {
        let (width, height) = self.fb.extent();
        let (w, h) = cell(self.font as int);
        &&& self.fb.wf()
        &&& self.font < SIZES
        &&& self.cols == width / w
        &&& self.rows == height / h
        &&& self.origin.0 == (width - self.cols * w) / 2
        &&& self.origin.1 == (height - self.rows * h) / 2
        &&& self.cells@.len() == self.cols * self.rows
        &&& self.shown@.len() == self.cols * self.rows
    }

    /// A blank position in the colours in force.
    pub open spec fn blank(self) -> Cell {
        Cell { ch: 0x20, fg: self.fg, bg: self.bg }
    }

    /// The grid and the cursor.
    pub open spec fn grid(self) -> Grid {
        Grid { cells: self.cells@, col: self.cursor.0 as int, row: self.cursor.1 as int }
    }

    /// Laid out afresh: an empty grid, a screen about which nothing is
    /// believed, and the picture in the background colour.
    pub open spec fn fresh(self) -> bool {
        &&& self.wf()
        &&& self.cursor == (0usize, 0usize)
        &&& forall|i: int| 0 <= i < self.cells@.len() ==> self.cells@[i] == self.blank()
        &&& forall|i: int| 0 <= i < self.shown@.len() ==> self.shown@[i] is None
    }

    pub fn new(fb: Framebuffer) -> (r: Self)
        requires
            fb.wf(),
        ensures
            r.fresh(),
            r.fb.same_shape(fb),
            r.fb.pixels@ == fb.filled(fb.pixels@, rgb_of(Color::Black)),
            r.font == automatic_size(fb.extent().0, fb.extent().1),
            r.fg == rgb_of(Color::LightGray),
            r.bg == rgb_of(Color::Black),
    {
        let (width, height) = fb.logical_size();
        let font: usize = automatic(width, height);
        let mut console = Console {
            fb,
            font,
            cols: 0,
            rows: 0,
            origin: (0, 0),
            cells: Vec::new(),
            shown: Vec::new(),
            cursor: (0, 0),
            fg: rgb(Color::LightGray),
            bg: rgb(Color::Black),
        };
        console.lay_out();
        console
    }

    /// Recompute the grid for the cell size in force, and repaint from
    /// scratch. The only place that fills the whole framebuffer.
    fn lay_out(&mut self)
        requires
            old(self).fb.wf(),
            old(self).font < SIZES,
        ensures
            final(self).fresh(),
            final(self).fb.same_shape(old(self).fb),
            final(self).fb.pixels@ == old(self).fb.filled(old(self).fb.pixels@, old(self).bg),
            final(self).font == old(self).font,
            final(self).fg == old(self).fg,
            final(self).bg == old(self).bg,
    {
        let (width, height) = self.fb.logical_size();
        let (w, h) = cell_size(self.font);
        proof {
            lemma_fundamental_div_mod(width as int, w as int);
            lemma_fundamental_div_mod(height as int, h as int);
        }
        let cols: usize = width / w;
        let rows: usize = height / h;
        assert(cols * w == w * cols) by (nonlinear_arith);
        assert(rows * h == h * rows) by (nonlinear_arith);
        self.cols = cols;
        self.rows = rows;
        self.origin = ((width - cols * w) / 2, (height - rows * h) / 2);
        let blank = Cell { ch: 0x20, fg: self.fg, bg: self.bg };
        proof {
            // The grid is smaller than the framebuffer, which is in memory.
            assert(self.fb.pixels.len() == self.fb.pixels@.len());
            assert(cols * rows <= width * height) by (nonlinear_arith)
                requires
                    0 <= cols <= width,
                    0 <= rows <= height,
            ;
            assert(width * height <= self.fb.stride * self.fb.height) by (nonlinear_arith)
                requires
                    width * height == self.fb.width * self.fb.height || width * height
                        == self.fb.height * self.fb.width,
                    self.fb.width <= self.fb.stride,
                    0 <= self.fb.height,
            ;
        }
        let n: usize = cols * rows;
        let mut cells: Vec<Cell> = Vec::new();
        let mut shown: Vec<Option<Cell>> = Vec::new();
        let mut i: usize = 0;
        while i < n
            invariant
                i <= n,
                cells@.len() == i,
                shown@.len() == i,
                forall|j: int| 0 <= j < i ==> cells@[j] == blank,
                forall|j: int| 0 <= j < i ==> shown@[j] is None,
            decreases n - i,
        {
            cells.push(blank);
            shown.push(None);
            i += 1;
        }
        self.cells = cells;
        self.shown = shown;
        self.cursor = (0, 0);
        let bg = self.bg;
        self.fb.fill(bg);
    }

    /// The cell size that goes on being used: the one in force while it
    /// still fits, the automatic one otherwise.
    pub open spec fn settled(self) -> int {
        let (width, height) = self.fb.extent();
        if roomy(self.font as int, width, height) {
            self.font as int
        } else {
            automatic_size(width, height)
        }
    }

    /// Recompute the grid for the current cell size and orientation, and
    /// repaint from scratch.
    ///
    /// A quarter turn swaps the axes, so a size chosen while the screen was
    /// the other way round may no longer fit. Ask again rather than hold on
    /// to a choice that has stopped making sense.
    fn relayout(&mut self)
        requires
            old(self).fb.wf(),
            old(self).font < SIZES,
        ensures
            final(self).fresh(),
            final(self).fb.same_shape(old(self).fb),
            final(self).fb.pixels@ == old(self).fb.filled(old(self).fb.pixels@, old(self).bg),
            final(self).font == old(self).settled(),
            final(self).fg == old(self).fg,
            final(self).bg == old(self).bg,
    {
        let (width, height) = self.fb.logical_size();
        if !fits(self.font, width, height) {
            self.font = automatic(width, height);
        }
        self.lay_out();
    }

    /// Forget what is believed to be on the screen, leaving what is meant
    /// to be there alone: the grid is still right and only the glass has
    /// been cleared underneath it.
    pub fn forget(&mut self)
        requires
            old(self).wf(),
        ensures
            final(self).wf(),
            final(self).cells@ == old(self).cells@,
            forall|i: int| 0 <= i < final(self).shown@.len() ==> final(self).shown@[i] is None,
            final(self).fb.same_shape(old(self).fb),
            final(self).fb.pixels@ == old(self).fb.filled(old(self).fb.pixels@, old(self).bg),
            final(self).cursor == old(self).cursor,
            final(self).font == old(self).font,
            final(self).fg == old(self).fg,
            final(self).bg == old(self).bg,
    {
        let mut i: usize = 0;
        while i < self.shown.len()
            invariant
                i <= self.shown@.len(),
                self.wf(),
                self.cells@ == old(self).cells@,
                self.fb == old(self).fb,
                self.cursor == old(self).cursor,
                self.font == old(self).font,
                self.fg == old(self).fg,
                self.bg == old(self).bg,
                forall|j: int| 0 <= j < i ==> self.shown@[j] is None,
            decreases self.shown@.len() - i,
        {
            self.shown.set(i, None);
            i += 1;
        }
        let bg = self.bg;
        self.fb.fill(bg);
    }

    /// The cell size one step up or down, if there is one that still fits.
    pub open spec fn next_size(self, bigger: bool) -> Option<int> {
        let (width, height) = self.fb.extent();
        let next = if bigger {
            self.font - 1
        } else {
            self.font + 1
        };
        if 0 <= next < SIZES && roomy(next, width, height) {
            Some(next)
        } else {
            None
        }
    }

    /// Step one cell size up or down, if there is one that still fits.
    ///
    /// Returns whether anything changed, so the caller can tell the
    /// operator they have run out of sizes rather than leaving them
    /// pressing a button that silently does nothing.
    pub fn resize_text(&mut self, bigger: bool) -> (r: bool)
        requires
            old(self).wf(),
        ensures
            final(self).wf(),
            r == (old(self).next_size(bigger) is Some),
            r ==> final(self).fresh() && Some(final(self).font as int) == old(self).next_size(
                bigger,
            ) && final(self).fb.pixels@ == old(self).fb.filled(
                old(self).fb.pixels@,
                old(self).bg,
            ),
            !r ==> *final(self) == *old(self),
            final(self).fb.same_shape(old(self).fb),
            final(self).fg == old(self).fg,
            final(self).bg == old(self).bg,
    {
        if bigger && self.font == 0 {
            return false;
        }
        let next: usize = if bigger {
            self.font - 1
        } else {
            self.font + 1
        };
        if next >= SIZES {
            return false;
        }
        let (width, height) = self.fb.logical_size();
        if !fits(next, width, height) {
            return false;
        }
        self.font = next;
        self.relayout();
        true
    }

    pub fn size(&self) -> (r: (usize, usize))
        ensures
            r == (self.cols, self.rows),
    {
        (self.cols, self.rows)
    }

    /// The grid as it stands, which is not always [`layout_for`]'s answer
    /// for this framebuffer: the operator may have stepped the cell size
    /// away from the automatic choice, and the display screen has to show
    /// what is on the glass rather than what would have been chosen.
    pub fn layout(&self) -> (r: Layout)
        requires
            self.wf(),
        ensures
            r == layout_in(self.font as int, self.fb.extent().0, self.fb.extent().1),
    {
        let (cell_w, cell_h) = cell_size(self.font);
        Layout { cols: self.cols, rows: self.rows, cell_w, cell_h }
    }

    /// The extent of the mode in use.
    pub fn resolution(&self) -> (r: (usize, usize))
        ensures
            r == (self.fb.width, self.fb.height),
    {
        (self.fb.width, self.fb.height)
    }

    /// What a mode of this extent would come to if it were set.
    ///
    /// Turned before it is laid out, because the value of a mode depends on
    /// which way round the picture goes: 2560x1600 is a wide grid the way
    /// the firmware has it and a tall one on a panel mounted sideways.
    pub fn layout_at(&self, width: usize, height: usize) -> (r: Layout)
        ensures
            ({
                let (w, h) = self.fb.rotation.seen(width as int, height as int);
                r == layout_in(automatic_size(w, h), w, h)
            }),
    {
        let (width, height) = self.fb.rotation().logical(width, height);
        layout_for(width, height)
    }

    /// Take up what came of asking for another framebuffer mode.
    ///
    /// The cell size is chosen afresh rather than carried over: getting a
    /// bigger one is the reason to be here. A mode that was set and put
    /// back has cleared the display twice; the grid still stands, but
    /// nothing is on the glass, so the screen is forgotten.
    pub fn set_mode(&mut self, change: ModeChange) -> (r: bool)
        requires
            old(self).wf(),
            change matches ModeChange::InForce(fb) ==> fb.wf(),
        ensures
            final(self).wf(),
            r == (change is InForce),
            change matches ModeChange::InForce(fb) ==> {
                &&& final(self).fresh()
                &&& final(self).fb.same_shape(fb)
                &&& final(self).fb.pixels@ == fb.filled(fb.pixels@, old(self).bg)
                &&& final(self).font == automatic_size(fb.extent().0, fb.extent().1)
            },
            change is Refused ==> *final(self) == *old(self),
            change is Restored ==> {
                &&& final(self).cells@ == old(self).cells@
                &&& forall|i: int|
                    0 <= i < final(self).shown@.len() ==> final(self).shown@[i] is None
                &&& final(self).fb.same_shape(old(self).fb)
                &&& final(self).fb.pixels@ == old(self).fb.filled(
                    old(self).fb.pixels@,
                    old(self).bg,
                )
                &&& final(self).font == old(self).font
                &&& final(self).cursor == old(self).cursor
            },
            final(self).fg == old(self).fg,
            final(self).bg == old(self).bg,
    {
        match change {
            ModeChange::InForce(fb) => {
                let (width, height) = fb.logical_size();
                self.fb = fb;
                self.font = automatic(width, height);
                self.lay_out();
                true
            },
            ModeChange::Refused => false,
            ModeChange::Restored => {
                self.forget();
                false
            },
        }
    }

    pub fn rotation(&self) -> (r: Rotation)
        ensures
            r == self.fb.rotation,
    {
        self.fb.rotation()
    }

    /// Turn the picture. One that is already that way round is left alone;
    /// any other is the same framebuffer turned, repainted from scratch, with
    /// the cell size kept where it still fits.
    pub fn set_rotation(&mut self, rotation: Rotation)
        requires
            old(self).wf(),
        ensures
            final(self).wf(),
            final(self).fb.rotation == rotation,
            rotation == old(self).fb.rotation ==> *final(self) == *old(self),
            rotation != old(self).fb.rotation ==> ({
                let turned = Framebuffer { rotation, ..old(self).fb };
                &&& final(self).fresh()
                &&& final(self).fb.same_shape(turned)
                &&& final(self).fb.pixels@ == turned.filled(old(self).fb.pixels@, old(self).bg)
                &&& final(self).font == (Console { fb: turned, ..*old(self) }).settled()
            }),
            final(self).fg == old(self).fg,
            final(self).bg == old(self).bg,
    {
        if rotation != self.fb.rotation() {
            self.fb.set_rotation(rotation);
            self.relayout();
        }
    }

    pub fn set_color(&mut self, fg: Rgb, bg: Rgb)
        ensures
            *final(self) == (Console { fg, bg, ..*old(self) }),
    {
        self.fg = fg;
        self.bg = bg;
    }

    /// Blank the grid. Pixels are left alone; see the module note.
    pub fn clear(&mut self)
        requires
            old(self).wf(),
        ensures
            final(self).wf(),
            final(self).cursor == (0usize, 0usize),
            forall|i: int|
                0 <= i < final(self).cells@.len() ==> final(self).cells@[i] == old(self).blank(),
            final(self).shown@ == old(self).shown@,
            final(self).fb == old(self).fb,
            final(self).font == old(self).font,
            final(self).fg == old(self).fg,
            final(self).bg == old(self).bg,
    {
        let blank = Cell { ch: 0x20, fg: self.fg, bg: self.bg };
        let mut i: usize = 0;
        while i < self.cells.len()
            invariant
                i <= self.cells@.len(),
                self.wf(),
                blank == old(self).blank(),
                self.shown@ == old(self).shown@,
                self.fb == old(self).fb,
                self.font == old(self).font,
                self.fg == old(self).fg,
                self.bg == old(self).bg,
                forall|j: int| 0 <= j < i ==> self.cells@[j] == blank,
            decreases self.cells@.len() - i,
        {
            self.cells.set(i, blank);
            i += 1;
        }
        self.cursor = (0, 0);
    }

    pub fn set_cursor(&mut self, col: usize, row: usize)
        ensures
            *final(self) == (Console { cursor: (col, row), ..*old(self) }),
    {
        self.cursor = (col, row);
    }

    /// Write text at the cursor, wrapping at the right edge.
    ///
    /// Anything below the last row is dropped rather than scrolled. Every
    /// screen is built to fit, and a screen that did overflow would be far
    /// better off losing its last line than silently shifting the rest of
    /// itself up past a heading the operator is reading.
    pub fn write(&mut self, text: &str)
        requires
            old(self).wf(),
            old(self).cols > 0 || old(self).rows == 0,
            old(self).cursor.0 + text@.len() <= usize::MAX,
            old(self).cursor.1 + text@.len() <= usize::MAX,
        ensures
            final(self).wf(),
            final(self).grid() == typed_all(
                old(self).grid(),
                old(self).cols as int,
                old(self).rows as int,
                old(self).fg,
                old(self).bg,
                text@,
            ),
            final(self).shown@ == old(self).shown@,
            final(self).fb == old(self).fb,
            final(self).font == old(self).font,
            final(self).fg == old(self).fg,
            final(self).bg == old(self).bg,
    {
        let chars = to_chars(text);
        let ghost start = self.grid();
        let ghost all = text@;
        let mut i: usize = 0;
        assert(all.take(0) =~= Seq::<char>::empty());
        while i < chars.len()
            invariant
                i <= chars@.len(),
                chars@ == all,
                self.wf(),
                self.cols > 0 || self.rows == 0,
                start.col == old(self).cursor.0,
                start.row == old(self).cursor.1,
                start == old(self).grid(),
                old(self).cursor.0 + all.len() <= usize::MAX,
                old(self).cursor.1 + all.len() <= usize::MAX,
                self.cols == old(self).cols,
                self.rows == old(self).rows,
                self.shown@ == old(self).shown@,
                self.fb == old(self).fb,
                self.font == old(self).font,
                self.fg == old(self).fg,
                self.bg == old(self).bg,
                self.grid() == typed_all(
                    start,
                    self.cols as int,
                    self.rows as int,
                    self.fg,
                    self.bg,
                    all.take(i as int),
                ),
            decreases chars@.len() - i,
        {
            let ch: char = chars[i];
            let ghost before = *self;
            proof {
                typing_moves_at_most_one(
                    start,
                    self.cols as int,
                    self.rows as int,
                    self.fg,
                    self.bg,
                    all.take(i as int),
                );
                assert(all.take(i + 1).drop_last() =~= all.take(i as int));
                assert(all.take(i + 1).last() == ch);
            }
            if ch == '\n' {
                self.cursor = (0, self.cursor.1 + 1);
            } else if ch == '\r' {
                self.cursor = (0, self.cursor.1);
            } else {
                if self.cursor.0 >= self.cols {
                    self.cursor = (0, self.cursor.1 + 1);
                }
                if self.cursor.1 < self.rows {
                    proof {
                        position_is_inside(
                            self.cursor.0 as int,
                            self.cursor.1 as int,
                            self.cols as int,
                            self.rows as int,
                        );
                        assert(self.cells.len() == self.cells@.len());
                    }
                    let index: usize = self.cursor.1 * self.cols + self.cursor.0;
                    let value: u32 = ch as u32;
                    let byte: u8 = if value <= 0xFF {
                        value as u8
                    } else {
                        0x3F
                    };
                    let cell = Cell { ch: byte, fg: self.fg, bg: self.bg };
                    self.cells.set(index, cell);
                }
                self.cursor = (self.cursor.0 + 1, self.cursor.1);
            }
            i += 1;
        }
        assert(all.take(i as int) =~= all);
    }

    /// The pixels once the first `n` cells that changed are drawn.
    pub open spec fn repainted(self, px: Seq<u32>, font: Font, n: nat) -> Seq<u32>
        decreases n,
    {
        if n == 0 {
            px
        } else {
            let i = n - 1;
            let before = self.repainted(px, font, (n - 1) as nat);
            let cell = self.cells@[i];
            if self.shown@[i] == Some(cell) {
                before
            } else {
                self.fb.celled(
                    before,
                    font,
                    cell.ch as char,
                    self.origin.0 + (i % self.cols as int) * font.cell_w,
                    self.origin.1 + (i / self.cols as int) * font.cell_h,
                    cell.fg,
                    cell.bg,
                )
            }
        }
    }

    /// Draw every cell that changed since the last flush.
    ///
    /// `font` is the face for the cell size in use.
    pub fn flush(&mut self, font: &Font)
        requires
            old(self).wf(),
            (font.cell_w as int, font.cell_h as int) == cell(old(self).font as int),
            old(self).fb.width + 0x400 <= usize::MAX,
            old(self).fb.height + 0x400 <= usize::MAX,
        ensures
            final(self).wf(),
            final(self).cells@ == old(self).cells@,
            final(self).shown@.len() == old(self).shown@.len(),
            forall|i: int|
                0 <= i < final(self).shown@.len() ==> final(self).shown@[i] == Some(
                    old(self).cells@[i],
                ),
            final(self).fb.same_shape(old(self).fb),
            final(self).fb.pixels@ == old(self).repainted(
                old(self).fb.pixels@,
                *font,
                old(self).cells@.len(),
            ),
            final(self).font == old(self).font,
            final(self).cursor == old(self).cursor,
            final(self).fg == old(self).fg,
            final(self).bg == old(self).bg,
    {
        let ghost start = *self;
        let (width, height) = self.fb.logical_size();
        let mut col: usize = 0;
        let mut row: usize = 0;
        let mut i: usize = 0;
        while i < self.cells.len()
            invariant
                start == *old(self),
                start.wf(),
                self.wf(),
                (font.cell_w as int, font.cell_h as int) == cell(self.font as int),
                (width as int, height as int) == self.fb.extent(),
                self.fb.width + 0x400 <= usize::MAX,
                self.fb.height + 0x400 <= usize::MAX,
                i <= self.cells@.len(),
                col < self.cols || self.cells@.len() == 0,
                i == row * self.cols + col,
                self.cells@ == start.cells@,
                self.cols == start.cols,
                self.rows == start.rows,
                self.origin == start.origin,
                self.font == start.font,
                self.cursor == start.cursor,
                self.fg == start.fg,
                self.bg == start.bg,
                self.shown@.len() == start.shown@.len(),
                self.fb.same_shape(start.fb),
                forall|j: int| 0 <= j < i ==> self.shown@[j] == Some(start.cells@[j]),
                forall|j: int| i <= j < self.shown@.len() ==> self.shown@[j] == start.shown@[j],
                self.fb.pixels@ == start.repainted(start.fb.pixels@, *font, i as nat),
            decreases self.cells@.len() - i,
        {
            let cell = self.cells[i];
            proof {
                // Where this cell is, and that it is on the picture.
                assert(row < self.rows) by (nonlinear_arith)
                    requires
                        i == row * self.cols + col,
                        i < self.cols * self.rows,
                        0 <= col < self.cols,
                        0 <= row,
                        0 <= self.rows,
                ;
                vstd::arithmetic::div_mod::lemma_fundamental_div_mod_converse(
                    i as int,
                    self.cols as int,
                    row as int,
                    col as int,
                );
                let (w, h) = (font.cell_w, font.cell_h);
                lemma_fundamental_div_mod(width as int, w as int);
                lemma_fundamental_div_mod(height as int, h as int);
                assert(self.cols * w <= width) by (nonlinear_arith)
                    requires
                        width == w * self.cols + (width as int % w as int),
                        0 <= width as int % w as int,
                ;
                assert(self.rows * h <= height) by (nonlinear_arith)
                    requires
                        height == h * self.rows + (height as int % h as int),
                        0 <= height as int % h as int,
                ;
                assert(0 <= col * w <= self.cols * w) by (nonlinear_arith)
                    requires
                        0 <= col < self.cols,
                        0 <= w,
                ;
                assert(0 <= row * h <= self.rows * h) by (nonlinear_arith)
                    requires
                        0 <= row < self.rows,
                        0 <= h,
                ;
                assert(start.origin.0 + self.cols * w <= width);
                assert(start.origin.1 + self.rows * h <= height);
            }
            let same = match self.shown[i] {
                Some(there) => there == cell,
                None => false,
            };
            if !same {
                let x: usize = self.origin.0 + col * font.cell_w;
                let y: usize = self.origin.1 + row * font.cell_h;
                proof {
                    a_cell_depends_on_the_shape(
                        self.fb,
                        start.fb,
                        self.fb.pixels@,
                        *font,
                        cell.ch as char,
                        x as int,
                        y as int,
                        cell.fg,
                        cell.bg,
                    );
                }
                self.fb.draw_cell(font, cell.ch as char, x, y, cell.fg, cell.bg);
                self.shown.set(i, Some(cell));
            }
            i += 1;
            if col + 1 == self.cols {
                col = 0;
                row += 1;
                assert((row - 1) * self.cols + self.cols == row * self.cols) by (nonlinear_arith);
            } else {
                col += 1;
            }
        }
    }
}

/// A screen that has just been flushed is not drawn again: a second flush
/// changes no pixel.
pub proof fn a_flushed_screen_is_not_redrawn(c: Console, px: Seq<u32>, font: Font, n: nat)
    requires
        n <= c.cells@.len(),
        c.shown@.len() == c.cells@.len(),
        forall|i: int| 0 <= i < c.shown@.len() ==> c.shown@[i] == Some(c.cells@[i]),
    ensures
        c.repainted(px, font, n) == px,
    decreases n,
{
    if n > 0 {
        a_flushed_screen_is_not_redrawn(c, px, font, (n - 1) as nat);
    }
}


/// A character goes where the cursor is, moves it on by one and touches no
/// other cell; what does not fit on the line goes on to the next, and what is
/// below the last line is not drawn.
pub proof fn a_character_goes_where_the_cursor_is(
    g: Grid,
    cols: int,
    rows: int,
    fg: Rgb,
    bg: Rgb,
    ch: char,
    i: int,
)
    requires
        0 <= g.col,
        0 <= g.row,
        0 < cols,
        g.cells.len() == cols * rows,
        0 <= i < g.cells.len(),
        ch != '\n',
        ch != '\r',
    ensures
        ({
            let t = typed(g, cols, rows, fg, bg, ch);
            &&& t.cells.len() == g.cells.len()
            &&& g.col < cols ==> t.col == g.col + 1 && t.row == g.row
            &&& g.col >= cols ==> t.col == 1 && t.row == g.row + 1
            &&& t.row < rows && i == t.row * cols + (t.col - 1) ==> t.cells[i].fg == fg
                && t.cells[i].bg == bg && ((ch as u32) <= 0xFF ==> t.cells[i].ch == ch as u32) && ((
            ch as u32) > 0xFF ==> t.cells[i].ch == 0x3F)
            &&& t.row >= rows || i != t.row * cols + (t.col - 1) ==> t.cells[i] == g.cells[i]
        }),
        typed(g, cols, rows, fg, bg, '\n') == (Grid { cells: g.cells, col: 0, row: g.row + 1 }),
        typed(g, cols, rows, fg, bg, '\r') == (Grid { cells: g.cells, col: 0, row: g.row }),
{
    let t = typed(g, cols, rows, fg, bg, ch);
    if t.row < rows {
        position_is_inside(t.col - 1, t.row, cols, rows);
    }
}

/// Asking for bigger text gives the next bigger size, asking for smaller the
/// next smaller, and one that leaves too little room is not given.
pub proof fn sizes_go_one_step_at_a_time(c: Console)
    requires
        c.wf(),
    ensures
        c.next_size(true) matches Some(next) ==> cell(next).0 > cell(c.font as int).0 && next + 1
            == c.font,
        c.next_size(false) matches Some(next) ==> cell(next).0 < cell(c.font as int).0 && next
            == c.font + 1,
        c.font == 0 ==> c.next_size(true) is None,
        c.font == 2 ==> c.next_size(false) is None,
        c.next_size(true) matches Some(next) ==> roomy(next, c.fb.extent().0, c.fb.extent().1),
        c.next_size(false) matches Some(next) ==> roomy(next, c.fb.extent().0, c.fb.extent().1),
        cell(0) == (16int, 32int) && cell(1) == (12int, 24int) && cell(2) == (8int, 16int),
{
}

} // verus!
