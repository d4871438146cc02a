//! What the editor asks of whatever draws it: cells addressed by column and
//! row, painted in styles, within rectangles of the screen.

use vstd::prelude::*;

verus! {

/// How a cell is painted: foreground, background and style bits, each left
/// to what lies below where it is not set.
#[derive(Copy, Clone, Debug, Default, PartialEq, Eq, Structural)]
pub struct Style {
    pub fg: Option<u32>,
    pub bg: Option<u32>,
    pub style: Option<u32>,
}

impl Style {
    /// This style with `other` painted over it: what `other` sets wins, and
    /// what it leaves unset shows through.
    pub fn paintover(self, other: Style) -> (r: Style)
        ensures
            r.fg == if other.fg is Some { other.fg } else { self.fg },
            r.bg == if other.bg is Some { other.bg } else { self.bg },
            r.style == if other.style is Some { other.style } else { self.style },
    {
        let mut painted = self;
        match other.fg {
            Some(o_fg) => {
                painted.fg = Some(o_fg);
            },
            None => {},
        }
        match other.bg {
            Some(o_bg) => {
                painted.bg = Some(o_bg);
            },
            None => {},
        }
        match other.style {
            Some(o_style) => {
                painted.style = Some(o_style);
            },
            None => {},
        }
        painted
    }
}

/// The styles that the parts of the screen are painted in.
#[derive(Copy, Clone, Debug, Default, PartialEq, Eq, Structural)]
pub struct ColorMap {
    pub default: Style,
    pub actions: Style,
    pub line_num: Style,
    pub direction_marker: Style,
    pub selection: Style,
    pub special: Style,
}

/// A cell of the screen, or the size of a part of it: a column and a row.
///
/// This is another thing than a position in a text.
#[derive(Copy, Clone, Debug, PartialEq, Eq, Structural)]
pub struct Coord {
    pub x: usize,
    pub y: usize,
}

/// `a + b`, or the largest number that can be held where that is less.
pub open spec fn capped_sum(a: usize, b: usize) -> usize {
    if a + b <= usize::MAX {
        (a + b) as usize
    } else {
        usize::MAX
    }
}

/// `a - b`, or 0 where `b` is the larger.
pub open spec fn floored_difference(a: usize, b: usize) -> usize {
    if b <= a {
        (a - b) as usize
    } else {
        0
    }
}

impl Coord {
    /// `x` columns to the right.
    pub fn add_x(self, x: usize) -> (r: Coord)
        ensures
            r.x == capped_sum(self.x, x),
            r.y == self.y,
    {
        Coord { x: self.x.saturating_add(x), y: self.y }
    }

    /// `x` columns to the left; stops at the first column.
    pub fn sub_x(self, x: usize) -> (r: Coord)
        ensures
            r.x == floored_difference(self.x, x),
            r.y == self.y,
    {
        Coord { x: self.x.saturating_sub(x), y: self.y }
    }

    /// `y` rows down.
    pub fn add_y(self, y: usize) -> (r: Coord)
        ensures
            r.x == self.x,
            r.y == capped_sum(self.y, y),
    {
        Coord { x: self.x, y: self.y.saturating_add(y) }
    }

    /// `y` rows up; stops at the first row.
    pub fn sub_y(self, y: usize) -> (r: Coord)
        ensures
            r.x == self.x,
            r.y == floored_difference(self.y, y),
    {
        Coord { x: self.x, y: self.y.saturating_sub(y) }
    }

    /// The cell in the middle of an area of this size.
    pub fn center(self) -> (r: Coord)
        ensures
            r.x == self.x / 2,
            r.y == self.y / 2,
    {
        Coord { x: self.x / 2, y: self.y / 2 }
    }

    /// The cell that lies `other` columns and rows from this one.
    pub fn offset_by(self, other: Coord) -> (r: Coord)
        ensures
            r.x == capped_sum(self.x, other.x),
            r.y == capped_sum(self.y, other.y),
    {
        Coord { x: self.x.saturating_add(other.x), y: self.y.saturating_add(other.y) }
    }

    /// Whether the cell lies within an area of size `other`.
    pub fn is_inside_dimensions(self, other: Coord) -> (r: bool)
        ensures
            r == (self.y < other.y && self.x < other.x),
    {
        self.y < other.y && self.x < other.x
    }

    /// Whether the cell, counted from the corner of `other`, lies within
    /// it.
    pub fn is_inside(self, other: Rect) -> (r: bool)
        ensures
            r == (self.y < other.dimensions.y && self.x < other.dimensions.x),
    {
        self.is_inside_dimensions(other.dimensions)
    }
}

/// A rectangle of the screen: where its corner lies, and its size.
#[derive(Copy, Clone, Debug, PartialEq, Eq, Structural)]
pub struct Rect {
    pub offset: Coord,
    pub dimensions: Coord,
}

/// The column or row at which `at` splits an extent of `size`: counted from
/// the start where `at` is positive, from the end where it is negative.
pub open spec fn split_point(size: usize, at: isize) -> int {
    if at < 0 {
        size + at
    } else {
        at as int
    }
}

/// How far below zero the negative number `x` lies.
fn magnitude(x: isize) -> (r: usize)
    requires
        x < 0,
    ensures
        r == -x,
{
    (-(x + 1)) as usize + 1
}

impl Rect {
    /// `x` splits the width of the rectangle in two parts, the first of
    /// which is not empty, at a column that can be addressed.
    pub open spec fn splits_width(self, x: isize) -> bool {
        &&& x != 0
        &&& 0 <= split_point(self.dimensions.x, x) < self.dimensions.x
        &&& self.offset.x + split_point(self.dimensions.x, x) <= usize::MAX
    }

    /// `y` splits the height of the rectangle in two parts, at a row that
    /// can be addressed.
    pub open spec fn splits_height(self, y: isize) -> bool {
        &&& y != 0
        &&& 0 <= split_point(self.dimensions.y, y) < self.dimensions.y
        &&& self.offset.y + split_point(self.dimensions.y, y) <= usize::MAX
    }

    /// Whether `x` splits the width of the rectangle.
    pub fn can_split_verticaly_at(self, x: isize) -> (r: bool)
        ensures
            r == self.splits_width(x),
    {
        if x == 0 {
            return false;
        }
        let at = if x < 0 {
            if self.dimensions.x > isize::MAX as usize {
                self.dimensions.x - magnitude(x)
            } else if (self.dimensions.x as isize) + x < 0 {
                return false;
            } else {
                ((self.dimensions.x as isize) + x) as usize
            }
        } else {
            x as usize
        };
        at < self.dimensions.x && at <= usize::MAX - self.offset.x
    }

    /// Whether `y` splits the height of the rectangle.
    pub fn can_split_horizontaly_at(self, y: isize) -> (r: bool)
        ensures
            r == self.splits_height(y),
    {
        if y == 0 {
            return false;
        }
        let at = if y < 0 {
            if self.dimensions.y > isize::MAX as usize {
                self.dimensions.y - magnitude(y)
            } else if (self.dimensions.y as isize) + y < 0 {
                return false;
            } else {
                ((self.dimensions.y as isize) + y) as usize
            }
        } else {
            y as usize
        };
        at < self.dimensions.y && at <= usize::MAX - self.offset.y
    }

    /// The two rectangles side by side that the rectangle makes when it is
    /// split at column `x`, counted from its left edge where `x` is
    /// positive and from its right edge where it is negative.
    pub fn split_verticaly_at(self, x: isize) -> (r: (Rect, Rect))
        requires
            self.splits_width(x),
        ensures
            r.0.offset == self.offset,
            r.0.dimensions.x == split_point(self.dimensions.x, x),
            r.0.dimensions.y == self.dimensions.y,
            r.1.offset.x == self.offset.x + split_point(self.dimensions.x, x),
            r.1.offset.y == self.offset.y,
            r.1.dimensions.x == self.dimensions.x - split_point(self.dimensions.x, x),
            r.1.dimensions.y == self.dimensions.y,
    {
        let at = if x < 0 {
            self.dimensions.x - magnitude(x)
        } else {
            x as usize
        };
        (
            Rect { offset: self.offset, dimensions: Coord { x: at, y: self.dimensions.y } },
            Rect {
                offset: Coord { x: self.offset.x + at, y: self.offset.y },
                dimensions: Coord { x: self.dimensions.x - at, y: self.dimensions.y },
            },
        )
    }

    /// The two rectangles one above the other that the rectangle makes
    /// when it is split at row `y`, counted from its top edge where `y` is
    /// positive and from its bottom edge where it is negative.
    pub fn split_horizontaly_at(self, y: isize) -> (r: (Rect, Rect))
        requires
            self.splits_height(y),
        ensures
            r.0.offset == self.offset,
            r.0.dimensions.x == self.dimensions.x,
            r.0.dimensions.y == split_point(self.dimensions.y, y),
            r.1.offset.x == self.offset.x,
            r.1.offset.y == self.offset.y + split_point(self.dimensions.y, y),
            r.1.dimensions.x == self.dimensions.x,
            r.1.dimensions.y == self.dimensions.y - split_point(self.dimensions.y, y),
    {
        let at = if y < 0 {
            self.dimensions.y - magnitude(y)
        } else {
            y as usize
        };
        (
            Rect { offset: self.offset, dimensions: Coord { x: self.dimensions.x, y: at } },
            Rect {
                offset: Coord { x: self.offset.x, y: self.offset.y + at },
                dimensions: Coord { x: self.dimensions.x, y: self.dimensions.y - at },
            },
        )
    }
}

/// The line that a window of `height` rows starts from so that the line of
/// the cursor is seen with a margin of a quarter of the window above and
/// below it: `offset`, where the window started the last time, moved no
/// further than it must be.
pub open spec fn window_start(cursor_line: usize, height: usize, lines: usize, offset: usize) -> int {
    let margin = height / 4;
    let first_needed = floored_difference(cursor_line, margin);
    let last_needed = if cursor_line + margin <= lines {
        cursor_line + margin
    } else {
        lines as int
    };
    let start = if first_needed < offset {
        first_needed
    } else {
        offset
    };
    if start + height < last_needed {
        last_needed - height
    } else {
        start as int
    }
}

/// The lines to show in a window of `height` rows on a text of `lines`
/// lines: the first line to show, the line behind the last to show, and the
/// line to start from the next time. The window starts at `window_start`,
/// or as far before it as it takes to fill the window with lines. In a
/// window of four rows or more the line of the cursor is among those
/// shown.
pub fn visible_lines(cursor_line: usize, height: usize, lines: usize, offset: usize) -> (r: (
    usize,
    usize,
    usize,
))
    ensures
        r.2 == window_start(cursor_line, height, lines, offset),
        r.0 == if r.2 + height <= lines {
            r.2
        } else {
            floored_difference(lines, height)
        },
        r.1 == if r.0 + height <= lines {
            r.0 + height
        } else {
            lines as int
        },
        cursor_line < lines && height >= 4 ==> r.0 <= cursor_line < r.1,
{
    let margin = height / 4;
    let first_needed = cursor_line.saturating_sub(margin);
    let wished = cursor_line.saturating_add(margin);
    let last_needed = if wished <= lines {
        wished
    } else {
        lines
    };
    let mut start = offset;
    if first_needed < start {
        start = first_needed;
    }
    if start.saturating_add(height) < last_needed {
        start = last_needed.saturating_sub(height);
    }
    let most = lines.saturating_sub(height);
    let first = if start <= most {
        start
    } else {
        most
    };
    let behind = first.saturating_add(height);
    let last = if behind <= lines {
        behind
    } else {
        lines
    };
    (first, last, start)
}

/// The number of characters of a text of `n` characters that `print` shows
/// from the cell at `coord` in a grid of size `dims`: those that find room
/// between `coord` and the right edge of the grid, and none where `coord`
/// lies outside the grid.
pub open spec fn shown(dims: Coord, coord: Coord, n: nat) -> nat {
    if coord.y < dims.y && coord.x < dims.x {
        if n <= dims.x - coord.x {
            n
        } else {
            (dims.x - coord.x) as nat
        }
    } else {
        0
    }
}

/// `steps` lists what a renderer is, from `before` to `after`, as the
/// characters `text` are written in the style `style` from the cell at
/// `coord` on to the right, cell by cell, as far as a grid of size `dims`
/// reaches; `puts` says what one `put` makes of the renderer.
pub open spec fn is_printing<T>(
    steps: Seq<T>,
    before: T,
    after: T,
    dims: Coord,
    coord: Coord,
    text: Seq<char>,
    style: Style,
    puts: spec_fn(T, T, Coord, char, Style) -> bool,
) -> bool {
    &&& steps.len() == shown(dims, coord, text.len()) + 1
    &&& steps[0] == before
    &&& steps[steps.len() - 1] == after
    &&& forall|k: int|
        0 <= k < steps.len() - 1 ==> puts(
            #[trigger] steps[k],
            steps[k + 1],
            Coord { x: (coord.x + k) as usize, y: coord.y },
            text[k],
            style,
        )
}

/// `after` is `before` with `text` written from the cell at `coord` on to
/// the right, as far as a grid of size `dims` reaches.
pub open spec fn printed<T>(
    before: T,
    after: T,
    dims: Coord,
    coord: Coord,
    text: Seq<char>,
    style: Style,
    puts: spec_fn(T, T, Coord, char, Style) -> bool,
) -> bool {
    exists|steps: Seq<T>| is_printing(steps, before, after, dims, coord, text, style, puts)
}

/// What draws the editor: a grid of cells, each of which can be given a
/// character in a style, and a cursor.
///
/// What a renderer does with a cell is its own affair. Contracts speak of
/// it through what the renderer itself says of its methods: `has_colors`
/// and `has_size` for what it hands out, `put_gives` and
/// `set_cursor_gives` for what it becomes. A renderer that says nothing of
/// a method leaves it open.
pub trait Renderer: Sized {
    /// `colors` are the styles that `color_map` may hand out.
    open spec fn has_colors(&self, colors: ColorMap) -> bool {
        true
    }

    /// `size` is a size that `dimensions` may hand out.
    open spec fn has_size(&self, size: Coord) -> bool {
        true
    }

    /// `after` is what the renderer may be after `put` with `coord`, `ch`
    /// and `style`.
    open spec fn put_gives(&self, after: &Self, coord: Coord, ch: char, style: Style) -> bool {
        true
    }

    /// `after` is what the renderer may be after `set_cursor` with `coord`.
    open spec fn set_cursor_gives(&self, after: &Self, coord: Option<Coord>) -> bool {
        true
    }

    /// The styles to paint in.
    fn color_map(&self) -> (r: &ColorMap)
        ensures
            self.has_colors(*r),
    ;

    /// The size of the grid.
    fn dimensions(&self) -> (r: Coord)
        ensures
            self.has_size(r),
    ;

    /// Gives the cell at `coord` the character `ch` in the style `style`.
    /// A cell outside the grid is left out.
    fn put(&mut self, coord: Coord, ch: char, style: Style)
        ensures
            old(self).put_gives(final(self), coord, ch, style),
    ;

    /// Shows the cursor in the cell at `coord`, or hides it.
    fn set_cursor(&mut self, coord: Option<Coord>)
        ensures
            old(self).set_cursor_gives(final(self), coord),
    ;

    /// The whole grid as a rectangle.
    fn dimensions_rect(&self) -> (r: Rect)
        ensures
            r.offset == (Coord { x: 0, y: 0 }),
            self.has_size(r.dimensions),
    {
        Rect { offset: Coord { x: 0, y: 0 }, dimensions: self.dimensions() }
    }

    /// Writes `text` from the cell at `coord` on to the right, as far as
    /// the grid reaches.
    fn print(&mut self, coord: Coord, text: &str, style: Style)
        ensures
            exists|dims: Coord|
                (#[trigger] old(self).has_size(dims)) && printed(
                    *old(self),
                    *final(self),
                    dims,
                    coord,
                    text@,
                    style,
                    |a: Self, b: Self, at: Coord, ch: char, st: Style| a.put_gives(&b, at, ch, st),
                ),
    {
        let dims = self.dimensions();
        let n = text.unicode_len();
        let ghost mut steps: Seq<Self> = seq![*self];
        let mut i: usize = 0;
        while i < n
            invariant_except_break
                i <= shown(dims, coord, text@.len()),
            invariant
                i <= n,
                n == text@.len(),
                old(self).has_size(dims),
                steps.len() == i + 1,
                steps[0] == *old(self),
                steps[i as int] == *self,
                forall|k: int|
                    0 <= k < i ==> (#[trigger] steps[k]).put_gives(
                        &steps[k + 1],
                        Coord { x: (coord.x + k) as usize, y: coord.y },
                        text@[k],
                        style,
                    ),
            ensures
                i == shown(dims, coord, text@.len()),
            decreases n - i,
        {
            let at = coord.add_x(i);
            if !at.is_inside_dimensions(dims) {
                break ;
            }
            let ghost before = *self;
            self.put(at, text.get_char(i), style);
            proof {
                steps = steps.push(*self);
            }
            i += 1;
        }
        proof {
            assert(is_printing(
                steps,
                *old(self),
                *self,
                dims,
                coord,
                text@,
                style,
                |a: Self, b: Self, at: Coord, ch: char, st: Style| a.put_gives(&b, at, ch, st),
            ));
        }
    }

    /// Writes `text` with its middle in the cell at `coord`.
    fn print_centered(&mut self, coord: Coord, text: &str, style: Style)
        ensures
            exists|dims: Coord|
                (#[trigger] old(self).has_size(dims)) && printed(
                    *old(self),
                    *final(self),
                    dims,
                    Coord {
                        x: floored_difference(coord.x, (text@.len() / 2) as usize),
                        y: coord.y,
                    },
                    text@,
                    style,
                    |a: Self, b: Self, at: Coord, ch: char, st: Style| a.put_gives(&b, at, ch, st),
                ),
    {
        let len = text.unicode_len();
        let from = coord.sub_x(len / 2);
        self.print(from, text, style);
    }
}

/// A rectangle of a renderer, drawn on as a renderer of its own: cells are
/// counted from the corner of the rectangle, and what falls outside it is
/// left out.
pub struct RectView<'r, R> {
    pub rect: Rect,
    pub backend: &'r mut R,
}

/// The cell of a renderer that the cell `coord` of a rectangle at `offset`
/// is.
pub open spec fn placed(coord: Coord, offset: Coord) -> Coord {
    Coord { x: capped_sum(coord.x, offset.x), y: capped_sum(coord.y, offset.y) }
}

impl<'r, R: Renderer> Renderer for RectView<'r, R> {
    /// The styles of the renderer that the rectangle is a part of.
    open spec fn has_colors(&self, colors: ColorMap) -> bool {
        (*self.backend).has_colors(colors)
    }

    /// The size of the rectangle.
    open spec fn has_size(&self, size: Coord) -> bool {
        size == self.rect.dimensions
    }

    /// The rectangle stays; a cell within it is put at its place in the
    /// renderer that the rectangle is a part of, and a cell outside it
    /// leaves that renderer as it is.
    open spec fn put_gives(&self, after: &Self, coord: Coord, ch: char, style: Style) -> bool {
        &&& after.rect == self.rect
        &&& if coord.y < self.rect.dimensions.y && coord.x < self.rect.dimensions.x {
            (*self.backend).put_gives(&*after.backend, placed(coord, self.rect.offset), ch, style)
        } else {
            *after.backend == *self.backend
        }
    }

    /// The rectangle stays; the cursor is set at its place in the renderer
    /// that the rectangle is a part of, or hidden.
    open spec fn set_cursor_gives(&self, after: &Self, coord: Option<Coord>) -> bool {
        &&& after.rect == self.rect
        &&& (*self.backend).set_cursor_gives(
            &*after.backend,
            match coord {
                Some(c) => Some(placed(c, self.rect.offset)),
                None => None,
            },
        )
    }

    fn color_map(&self) -> &ColorMap {
        self.backend.color_map()
    }

    fn dimensions(&self) -> (r: Coord) {
        self.rect.dimensions
    }

    fn put(&mut self, coord: Coord, ch: char, style: Style) {
        if coord.is_inside(self.rect) {
            self.backend.put(coord.offset_by(self.rect.offset), ch, style)
        }
    }

    fn set_cursor(&mut self, coord: Option<Coord>) {
        let moved = match coord {
            Some(c) => Some(c.offset_by(self.rect.offset)),
            None => None,
        };
        self.backend.set_cursor(moved)
    }
}

impl Rect {
    /// This rectangle of the renderer `r`, as a renderer of its own.
    pub fn to_renderer<'r, R: Renderer>(self, r: &'r mut R) -> (view: RectView<'r, R>)
        ensures
            view.rect == self,
    {
        RectView { rect: self, backend: r }
    }
}

} // verus!
