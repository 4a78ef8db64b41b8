//! The cell grid: rows mirrored by columns, column widths and a cursor.
use vstd::prelude::*;
use crate::number::{is_float_text, parses_as_number};
use crate::position::{parse_position, position_of, Position};
use crate::sheet_tokenizer::{Token, TokenView, token_views};
use crate::text::{
    all_digits, char_lines, chars_of, decimal_text, decimal_value, digits_value, extend_chars,
    push_text, split, split_chars, string_of, usize_text,
};

verus! {

/// One grid cell: a number kept as its text, a formula's source, or plain text.
#[derive(Debug, Clone)]
pub enum Data {
    Number(String),
    Equation(String),
    String(String),
}

/// What a cell holds, as character sequences.
pub enum CellView {
    Number(Seq<char>),
    Formula(Seq<char>),
    Text(Seq<char>),
}

impl View for Data {
    type V = CellView;

    open spec fn view(&self) -> CellView {
        match self {
            Data::Number(s) => CellView::Number(s@),
            Data::Equation(s) => CellView::Formula(s@),
            Data::String(s) => CellView::Text(s@),
        }
    }
}

/// The empty text cell.
pub open spec fn blank() -> CellView {
    CellView::Text(Seq::empty())
}

/// A row (or column) of `n` empty text cells.
pub open spec fn blank_line(n: nat) -> Seq<CellView> {
    Seq::new(n, |i: int| blank())
}

impl Data {
    /// An equal copy of this cell.
    pub fn copy(&self) -> (r: Data)
        ensures
            r@ == self@,
    {
        match self {
            Data::Number(s) => Data::Number(s.clone()),
            Data::Equation(s) => Data::Equation(s.clone()),
            Data::String(s) => Data::String(s.clone()),
        }
    }

    /// The cell as shown in a column `max_width` wide: numbers and text are cut or padded to
    /// the width (`fit`); a formula shows `evaluated`, its value, the same way, or, with
    /// `do_equations` off, its own source padded to the width.
    pub fn display(&self, max_width: usize, do_equations: bool, is_hovered: bool, evaluated: &str) -> (r: String)
        ensures
            r@ == match self@ {
                CellView::Number(n) => fit(n, max_width as nat, is_hovered),
                CellView::Text(t) => fit(t, max_width as nat, is_hovered),
                CellView::Formula(f) => if do_equations {
                    fit(evaluated@, max_width as nat, is_hovered)
                } else {
                    pad_right(f, max_width as nat)
                },
            },
    {
        match self {
            Data::Number(n) => fit_text(n.as_str(), max_width, is_hovered),
            Data::String(t) => fit_text(t.as_str(), max_width, is_hovered),
            Data::Equation(f) => if do_equations {
                fit_text(evaluated, max_width, is_hovered)
            } else {
                let v = pad_chars(chars_of(f.as_str()), max_width);
                string_of(&v)
            },
        }
    }

    /// The empty text cell.
    pub fn empty_text() -> (r: Data)
        ensures
            r@ == blank(),
    {
        Data::String(String::new())
    }
}

/// A cursor movement.
pub enum Direction {
    Up,
    Down,
    Left,
    Right,
    Bottom,
    Top,
    MostLeft,
    MostRight,
}

/// Width given to a column that has none recorded.
pub const DEFAULT_WIDTH: usize = 10;

/// The grid. Cells are stored twice, by row and by column, and both views always agree.
#[derive(Debug)]
pub struct Table {
    rows: Vec<Vec<Data>>,
    columns: Vec<Vec<Data>>,
    current_pos: Position,
    column_sizes: Vec<usize>,
}

/// The largest index of an axis with `n` entries (0 for an empty axis).
pub open spec fn last_index(n: nat) -> nat {
    if n == 0 {
        0
    } else {
        (n - 1) as nat
    }
}

/// The cursor after a move in `d` on a grid of `rows` by `cols` cells: it stops at the edges.
pub open spec fn moved(p: Position, d: Direction, rows: nat, cols: nat) -> Position {
    match d {
        Direction::Up => Position { row: if p.row > 0 { (p.row - 1) as usize } else { 0 }, col: p.col },
        Direction::Down => Position {
            row: if p.row + 1 <= last_index(rows) { (p.row + 1) as usize } else { last_index(rows) as usize },
            col: p.col,
        },
        Direction::Left => Position { row: p.row, col: if p.col > 0 { (p.col - 1) as usize } else { 0 } },
        Direction::Right => Position {
            row: p.row,
            col: if p.col + 1 <= last_index(cols) { (p.col + 1) as usize } else { last_index(cols) as usize },
        },
        Direction::Bottom => Position { row: last_index(rows) as usize, col: p.col },
        Direction::Top => Position { row: 0, col: p.col },
        Direction::MostLeft => Position { row: p.row, col: 0 },
        Direction::MostRight => Position { row: p.row, col: last_index(cols) as usize },
    }
}

/// One step toward the origin when the removed index `i` is at or before `p`.
pub open spec fn shrunk(p: usize, i: usize) -> usize {
    if p >= i && p > 0 {
        (p - 1) as usize
    } else {
        p
    }
}

/// A cell after `t` is typed at its end: a formula stays a formula; otherwise the cell is a
/// number when the new text reads as one, and text when it does not.
pub open spec fn appended(d: CellView, t: Seq<char>) -> CellView {
    match d {
        CellView::Formula(s) => CellView::Formula(s + t),
        CellView::Number(s) => if is_float_text(s + t) { CellView::Number(s + t) } else { CellView::Text(s + t) },
        CellView::Text(s) => if is_float_text(s + t) { CellView::Number(s + t) } else { CellView::Text(s + t) },
    }
}

/// A cell after its last character is erased: a formula stays a formula (an empty one stays
/// empty); a number or text that is left empty becomes empty text.
pub open spec fn trimmed(d: CellView) -> CellView {
    match d {
        CellView::Formula(s) => CellView::Formula(if s.len() == 0 { s } else { s.drop_last() }),
        CellView::Number(s) => if s.len() <= 1 { blank() } else { CellView::Number(s.drop_last()) },
        CellView::Text(s) => if s.len() <= 1 { blank() } else { CellView::Text(s.drop_last()) },
    }
}

/// Whether a cell counts as numeric in a reduction over a range: numbers and formulas do,
/// text does not.
pub open spec fn is_numeric_cell(c: CellView) -> bool {
    !(c is Text)
}

/// The cells of `s` that count as numeric, in order.
pub open spec fn numeric_only(s: Seq<CellView>) -> Seq<CellView> {
    s.filter(|c: CellView| is_numeric_cell(c))
}

proof fn lemma_numeric_only_push(s: Seq<CellView>, c: CellView)
    ensures
        numeric_only(s.push(c)) == if is_numeric_cell(c) { numeric_only(s).push(c) } else { numeric_only(s) },
{
    s.lemma_filter_push(c, |c: CellView| is_numeric_cell(c));
}

/// The cells of `v` that count as numeric, in order.
pub fn keep_numeric(v: Vec<Data>) -> (r: Vec<Data>)
    ensures
        views(r@) == numeric_only(views(v@)),
{
    let mut out: Vec<Data> = Vec::new();
    let mut i: usize = 0;
    assert(views(v@).take(0) =~= Seq::<CellView>::empty());
    assert(views(out@) =~= numeric_only(Seq::<CellView>::empty())) by {
        reveal(Seq::filter);
    }
    while i < v.len()
        invariant
            i <= v.len(),
            views(out@) == numeric_only(views(v@).take(i as int)),
        decreases v.len() - i,
    {
        let d = v[i].copy();
        proof {
            assert(views(v@).take(i + 1) =~= views(v@).take(i as int).push(d@));
            lemma_numeric_only_push(views(v@).take(i as int), d@);
        }
        let ghost dv = d@;
        let keep = match &d {
            Data::String(_) => false,
            _ => true,
        };
        assert(is_numeric_cell(dv) == keep);
        if keep {
            let ghost before = out@;
            out.push(d);
            assert(views(out@) =~= views(before).push(dv));
        }
        i += 1;
    }
    assert(views(v@).take(v.len() as int) =~= views(v@));
    out
}

/// The number cell `0`, which pads short rows.
pub open spec fn zero() -> CellView {
    CellView::Number(seq!['0'])
}

/// The length of the longest line of `g` (0 when there is none).
pub open spec fn widest(g: Seq<Seq<CellView>>) -> nat
    decreases g.len(),
{
    if g.len() == 0 {
        0
    } else {
        let w = widest(g.drop_last());
        if g.last().len() > w { g.last().len() } else { w }
    }
}

/// Every line of `g` padded with number cells `0` to the length of the longest.
pub open spec fn padded(g: Seq<Seq<CellView>>) -> Seq<Seq<CellView>> {
    Seq::new(g.len(), |r: int| g[r] + Seq::new((widest(g) - g[r].len()) as nat, |j: int| zero()))
}

/// `n` widths: those of `w` first, then the default width.
pub open spec fn fit_widths(w: Seq<usize>, n: nat) -> Seq<usize> {
    Seq::new(n, |i: int| if i < w.len() { w[i] } else { DEFAULT_WIDTH })
}

/// What the cells of each vector of `v` hold.
pub open spec fn grid_views(v: Seq<Vec<Data>>) -> Seq<Seq<CellView>> {
    Seq::new(v.len(), |r: int| views(v[r]@))
}

proof fn lemma_widest(g: Seq<Seq<CellView>>)
    ensures
        forall|r: int| 0 <= r < g.len() ==> #[trigger] g[r].len() <= widest(g),
        g.len() > 0 ==> exists|r: int| 0 <= r < g.len() && #[trigger] g[r].len() == widest(g),
    decreases g.len(),
{
    if g.len() > 0 {
        let h = g.drop_last();
        lemma_widest(h);
        assert forall|r: int| 0 <= r < g.len() implies #[trigger] g[r].len() <= widest(g) by {
            if r < h.len() {
                assert(g[r] == h[r]);
            }
        }
        if g.last().len() <= widest(h) && h.len() > 0 {
            let r = choose|r: int| 0 <= r < h.len() && #[trigger] h[r].len() == widest(h);
            assert(g[r] == h[r]);
        } else {
            assert(g[g.len() - 1].len() == widest(g));
        }
    }
}

fn pad_chars(v: Vec<char>, w: usize) -> (r: Vec<char>)
    ensures
        r@ == pad_right(v@, w as nat),
{
    let ghost orig = v@;
    let mut v = v;
    if v.len() >= w {
        return v;
    }
    while v.len() < w
        invariant
            orig.len() <= v@.len() <= w,
            v@ == orig + Seq::new((v@.len() - orig.len()) as nat, |i: int| ' '),
        decreases w - v@.len(),
    {
        v.push(' ');
        assert(v@ =~= orig + Seq::new((v@.len() - orig.len()) as nat, |i: int| ' '));
    }
    v
}

/// `t` cut or padded to `w` characters (see `fit`).
pub fn fit_text(t: &str, w: usize, hovered: bool) -> (r: String)
    ensures
        r@ == fit(t@, w as nat, hovered),
{
    let v = chars_of(t);
    if v.len() > w && !hovered {
        let mut cut: Vec<char> = Vec::new();
        let mut i: usize = 0;
        while i < w
            invariant
                i <= w < v@.len(),
                cut@ == v@.take(i as int),
            decreases w - i,
        {
            cut.push(v[i]);
            i += 1;
            assert(cut@ =~= v@.take(i as int));
        }
        string_of(&cut)
    } else {
        string_of(&pad_chars(v, w))
    }
}

/// The length of the longest vector of `array` (0 when there is none).
pub fn largest_list_in_2d_array<T>(array: &Vec<Vec<T>>) -> (r: usize)
    ensures
        forall|i: int| 0 <= i < array@.len() ==> #[trigger] array@[i]@.len() <= r,
        array@.len() == 0 ==> r == 0,
        array@.len() > 0 ==> exists|i: int| 0 <= i < array@.len() && #[trigger] array@[i]@.len() == r,
{
    if array.len() < 1 {
        return 0;
    }
    let mut largest = array[0].len();
    let mut i: usize = 1;
    while i < array.len()
        invariant
            1 <= i <= array.len(),
            forall|j: int| 0 <= j < i ==> #[trigger] array@[j]@.len() <= largest,
            exists|j: int| 0 <= j < i && #[trigger] array@[j]@.len() == largest,
        decreases array.len() - i,
    {
        if array[i].len() > largest {
            largest = array[i].len();
        }
        i += 1;
    }
    largest
}

/// The cells of a row whose tokens continue at index `i` (after its `[`), added to `acc`,
/// and the index after its `]`; `None` when the tokens end before the `]`. Commas and other
/// tokens are skipped.
pub open spec fn row_tokens(t: Seq<TokenView>, i: int, acc: Seq<CellView>) -> Option<(Seq<CellView>, int)>
    decreases t.len() - i,
{
    if i < 0 || i >= t.len() {
        None
    } else {
        match t[i] {
            TokenView::RBracket => Some((acc, i + 1)),
            TokenView::Str(x) => row_tokens(t, i + 1, acc.push(CellView::Text(x))),
            TokenView::Expr(x) => row_tokens(t, i + 1, acc.push(CellView::Formula(x))),
            TokenView::Number(x) => row_tokens(t, i + 1, acc.push(CellView::Number(x))),
            _ => row_tokens(t, i + 1, acc),
        }
    }
}

/// The bracketed rows of tokens from index `i` on; reading stops at the first token that
/// does not open a row, and at a row that is not closed.
pub open spec fn rows_from_tokens(t: Seq<TokenView>, i: int) -> Seq<Seq<CellView>>
    decreases t.len() - i,
{
    if 0 <= i < t.len() && t[i] is LBracket {
        match row_tokens(t, i + 1, Seq::empty()) {
            Some((r, j)) => if i < j <= t.len() { seq![r] + rows_from_tokens(t, j) } else { Seq::empty() },
            None => Seq::empty(),
        }
    } else {
        Seq::empty()
    }
}

/// Index of the first `.` at or after `i`, or the length.
pub open spec fn point_index(x: Seq<char>, i: int) -> int
    decreases x.len() - i,
{
    if i < 0 || i >= x.len() {
        x.len() as int
    } else if x[i] == '.' {
        i
    } else {
        point_index(x, i + 1)
    }
}

/// The width a cell of the widths row gives: the whole part of a number, or the default
/// width for anything else (or for a whole part that does not fit).
pub open spec fn width_of(c: CellView) -> usize {
    match c {
        CellView::Number(x) => {
            let d = x.take(point_index(x, 0));
            if all_digits(d) && decimal_value(d) <= usize::MAX { decimal_value(d) as usize } else { DEFAULT_WIDTH }
        },
        _ => DEFAULT_WIDTH,
    }
}

pub open spec fn all_numbers(r: Seq<CellView>) -> bool {
    forall|i: int| 0 <= i < r.len() ==> (#[trigger] r[i]) is Number
}

/// The data rows of sheet tokens: the rows after the first when the first holds only
/// numbers (those are the widths), else every row; a single empty text cell when there is
/// no row at all.
pub open spec fn sheet_data(t: Seq<TokenView>) -> Seq<Seq<CellView>> {
    let rows = rows_from_tokens(t, 0);
    if rows.len() == 0 {
        seq![seq![blank()]]
    } else if all_numbers(rows[0]) {
        rows.drop_first()
    } else {
        rows
    }
}

/// The widths that sheet tokens give (see `sheet_data`).
pub open spec fn sheet_widths(t: Seq<TokenView>) -> Seq<usize> {
    let rows = rows_from_tokens(t, 0);
    if rows.len() == 0 {
        seq![DEFAULT_WIDTH]
    } else if all_numbers(rows[0]) {
        rows[0].map_values(|c: CellView| width_of(c))
    } else {
        Seq::empty()
    }
}

/// A CSV field: a number when its text reads as one, text otherwise.
pub open spec fn csv_cell(f: Seq<char>) -> CellView {
    if is_float_text(f) { CellView::Number(f) } else { CellView::Text(f) }
}

pub open spec fn csv_line(l: Seq<char>, sep: char) -> Seq<CellView> {
    split(l, sep).map_values(|f: Seq<char>| csv_cell(f))
}

/// The rows of CSV text: one per line that a newline ends; the text after the last newline
/// is a last row only when it has as many fields as the first row. No rows at all when the
/// separator is the newline itself.
pub open spec fn csv_data(text: Seq<char>, sep: char) -> Seq<Seq<CellView>> {
    if sep == '\n' {
        Seq::empty()
    } else {
        let lines = split(text, '\n');
        let full = lines.drop_last().map_values(|l: Seq<char>| csv_line(l, sep));
        let last = csv_line(lines.last(), sep);
        if full.len() > 0 && last.len() == full[0].len() { full.push(last) } else { full }
    }
}

/// Each width followed by a comma.
pub open spec fn widths_text(w: Seq<usize>) -> Seq<char>
    decreases w.len(),
{
    if w.len() == 0 {
        Seq::empty()
    } else {
        widths_text(w.drop_last()) + decimal_text(w.last() as nat) + seq![',']
    }
}

/// A cell in the sheet format: text in quotes, a number as its text, a formula in
/// parentheses.
pub open spec fn cell_text(c: CellView) -> Seq<char> {
    match c {
        CellView::Text(t) => seq!['"'] + t + seq!['"'],
        CellView::Number(n) => n,
        CellView::Formula(f) => seq!['('] + f + seq![')'],
    }
}

/// Each cell followed by a comma.
pub open spec fn row_text(r: Seq<CellView>) -> Seq<char>
    decreases r.len(),
{
    if r.len() == 0 {
        Seq::empty()
    } else {
        row_text(r.drop_last()) + cell_text(r.last()) + seq![',']
    }
}

/// Each row in brackets, on a line of its own.
pub open spec fn rows_text(g: Seq<Seq<CellView>>) -> Seq<char>
    decreases g.len(),
{
    if g.len() == 0 {
        Seq::empty()
    } else {
        rows_text(g.drop_last()) + seq!['['] + row_text(g.last()) + seq![']', '\n']
    }
}

/// The sheet text of a table: the widths row, then the rows of cells.
pub open spec fn sheet_text(w: Seq<usize>, g: Seq<Seq<CellView>>) -> Seq<char> {
    seq!['['] + widths_text(w) + seq![']', '\n'] + rows_text(g)
}

/// Every number cell of `g` holds text that reads as a number.
pub open spec fn numbers_valid(g: Seq<Seq<CellView>>) -> bool {
    forall|r: int, c: int|
        0 <= r < g.len() && 0 <= c < g[r].len() ==> (#[trigger] g[r][c] matches CellView::Number(n) ==> is_float_text(n))
}

/// `t` followed by spaces up to `w` characters (unchanged when already that long).
pub open spec fn pad_right(t: Seq<char>, w: nat) -> Seq<char> {
    if t.len() >= w { t } else { t + Seq::new((w - t.len()) as nat, |i: int| ' ') }
}

/// `t` cut to `w` characters when longer and not hovered, else padded to `w`.
pub open spec fn fit(t: Seq<char>, w: nat, hovered: bool) -> Seq<char> {
    if t.len() > w && !hovered { t.take(w as int) } else { pad_right(t, w) }
}

/// First visible index and one past the last, for a window of `n` lines around `at` on an
/// axis of `len` lines: up to `n / 2` before and after, kept within the axis.
pub open spec fn window(at: nat, len: nat, n: nat) -> (nat, nat) {
    let before = if n / 2 > at { at } else { n / 2 };
    let after = if at + n / 2 >= len { (len - at) as nat } else { n / 2 };
    ((at - before) as nat, at + after)
}

/// What each cell of `v` holds.
pub open spec fn views(v: Seq<Data>) -> Seq<CellView> {
    v.map_values(|d: Data| d@)
}

/// Each row of `g` with an empty text cell inserted at column `i`.
pub open spec fn insert_column(g: Seq<Seq<CellView>>, i: int) -> Seq<Seq<CellView>> {
    g.map_values(|row: Seq<CellView>| row.insert(i, blank()))
}

/// Each row of `g` without its cell at column `i`.
pub open spec fn remove_column(g: Seq<Seq<CellView>>, i: int) -> Seq<Seq<CellView>> {
    g.map_values(|row: Seq<CellView>| row.remove(i))
}

impl Table {
    /// The cells, row by row.
    pub closed spec fn cells(&self) -> Seq<Seq<CellView>> {
        Seq::new(self.rows@.len(), |r: int| Seq::new(self.rows@[r]@.len(), |c: int| self.rows@[r]@[c]@))
    }

    /// The cells, column by column.
    pub closed spec fn column_cells(&self) -> Seq<Seq<CellView>> {
        Seq::new(self.columns@.len(), |c: int| Seq::new(self.columns@[c]@.len(), |r: int| self.columns@[c]@[r]@))
    }

    pub closed spec fn row_count(&self) -> nat {
        self.rows@.len()
    }

    pub closed spec fn col_count(&self) -> nat {
        self.columns@.len()
    }

    pub closed spec fn widths(&self) -> Seq<usize> {
        self.column_sizes@
    }

    pub closed spec fn cursor(&self) -> Position {
        self.current_pos
    }

    /// Every row has one cell per column, every column one cell per row, the two views hold
    /// the same cells, there is one width per column, and the cursor is inside the grid (or at
    /// index 0 of an empty axis).
    pub closed spec fn wf(&self) -> bool {
        &&& forall|r: int| 0 <= r < self.rows@.len() ==> #[trigger] self.rows@[r]@.len() == self.columns@.len()
        &&& forall|c: int| 0 <= c < self.columns@.len() ==> #[trigger] self.columns@[c]@.len() == self.rows@.len()
        &&& forall|r: int, c: int|
            0 <= r < self.rows@.len() && 0 <= c < self.columns@.len() ==> #[trigger] self.rows@[r]@[c]@
                == #[trigger] self.columns@[c]@[r]@
        &&& self.column_sizes@.len() == self.columns@.len()
        &&& (self.current_pos.row < self.rows@.len() || self.current_pos.row == 0)
        &&& (self.current_pos.col < self.columns@.len() || self.current_pos.col == 0)
    }

    /// The cell at `(r, c)`.
    pub open spec fn cell(&self, r: int, c: int) -> CellView {
        self.cells()[r][c]
    }

    proof fn lemma_shape(&self)
        requires
            self.wf(),
        ensures
            self.cells().len() == self.row_count(),
            forall|r: int| 0 <= r < self.row_count() ==> #[trigger] self.cells()[r].len() == self.col_count(),
            forall|r: int, c: int|
                0 <= r < self.row_count() && 0 <= c < self.col_count() ==> #[trigger] self.cells()[r][c]
                    == self.rows@[r]@[c]@,
    {
    }

    /// The cursor position.
    pub fn get_pos(&self) -> (r: Position)
        ensures
            r == self.cursor(),
    {
        self.current_pos
    }

    /// Number of rows and number of columns.
    pub fn get_size(&self) -> (r: [usize; 2])
        ensures
            r[0] == self.row_count(),
            r[1] == self.col_count(),
    {
        [self.rows.len(), self.columns.len()]
    }

    /// Display width of each column.
    pub fn get_col_widths(&self) -> (r: &Vec<usize>)
        ensures
            r@ == self.widths(),
    {
        &self.column_sizes
    }

    /// The display width of column `col`, if there is such a column.
    pub fn get_col_width(&self, col: usize) -> (r: Option<usize>)
        requires
            self.wf(),
        ensures
            r == if col < self.col_count() { Some(self.widths()[col as int]) } else { None::<usize> },
    {
        if col < self.column_sizes.len() {
            Some(self.column_sizes[col])
        } else {
            None
        }
    }

    /// Sets the display width of column `col`.
    pub fn resize_col(&mut self, col: usize, width: usize)
        requires
            old(self).wf(),
            col < old(self).col_count(),
        ensures
            final(self).wf(),
            final(self).widths() == old(self).widths().update(col as int, width),
            final(self).cells() == old(self).cells(),
            final(self).row_count() == old(self).row_count(),
            final(self).col_count() == old(self).col_count(),
            final(self).cursor() == old(self).cursor(),
    {
        self.column_sizes[col] = width;
    }

    /// Inserts a row of empty text cells at `row_no`; later rows move down.
    pub fn add_row(&mut self, row_no: usize)
        requires
            old(self).wf(),
            row_no <= old(self).row_count(),
        ensures
            final(self).wf(),
            final(self).cells() == old(self).cells().insert(row_no as int, blank_line(old(self).col_count())),
            final(self).row_count() == old(self).row_count() + 1,
            final(self).col_count() == old(self).col_count(),
            final(self).widths() == old(self).widths(),
            final(self).cursor() == old(self).cursor(),
    {
        let ghost pre = *self;
        let ncols = self.columns.len();
        let mut row: Vec<Data> = Vec::new();
        let mut c: usize = 0;
        while c < ncols
            invariant
                c <= ncols,
                row@.len() == c,
                *self == pre,
                forall|j: int| 0 <= j < c ==> #[trigger] row@[j]@ == blank(),
            decreases ncols - c,
        {
            row.push(Data::empty_text());
            c += 1;
        }
        self.rows.insert(row_no, row);
        let mut c: usize = 0;
        while c < ncols
            invariant
                ncols == self.columns@.len(),
                ncols == pre.columns@.len(),
                c <= ncols,
                row_no <= pre.rows@.len(),
                self.rows@ == pre.rows@.insert(row_no as int, row),
                pre.wf(),
                self.column_sizes == pre.column_sizes,
                self.current_pos == pre.current_pos,
                forall|j: int| 0 <= j < c ==> #[trigger] self.columns@[j]@ == pre.columns@[j]@.insert(row_no as int, self.columns@[j]@[row_no as int]),
                forall|j: int| 0 <= j < c ==> (#[trigger] self.columns@[j])@[row_no as int]@ == blank(),
                forall|j: int| c <= j < ncols ==> #[trigger] self.columns@[j] == pre.columns@[j],
            decreases ncols - c,
        {
            self.columns[c].insert(row_no, Data::empty_text());
            c += 1;
        }
        proof {
            let nr = self.rows@.len() as int;
            assert forall|r: int| 0 <= r < nr implies #[trigger] self.rows@[r]@.len() == self.columns@.len() by {
                if r < row_no {
                } else if r > row_no {
                    assert(self.rows@[r] == pre.rows@[r - 1]);
                }
            }
            assert forall|r: int, c: int| 0 <= r < nr && 0 <= c < ncols implies #[trigger] self.rows@[r]@[c]@
                == #[trigger] self.columns@[c]@[r]@ by {
                if r < row_no {
                    assert(self.rows@[r] == pre.rows@[r]);
                } else if r > row_no {
                    assert(self.rows@[r] == pre.rows@[r - 1]);
                }
            }
            assert(self.cells() =~~= pre.cells().insert(row_no as int, blank_line(pre.col_count()))) by {
                assert forall|r: int| 0 <= r < nr implies #[trigger] self.cells()[r] =~= pre.cells().insert(row_no as int, blank_line(pre.col_count()))[r] by {
                    if r < row_no {
                        assert(self.rows@[r] == pre.rows@[r]);
                    } else if r > row_no {
                        assert(self.rows@[r] == pre.rows@[r - 1]);
                    }
                }
            }
        }
    }

    /// Inserts a column of empty text cells, of default width, at `col_no`; later columns
    /// move right.
    pub fn add_col(&mut self, col_no: usize)
        requires
            old(self).wf(),
            col_no <= old(self).col_count(),
        ensures
            final(self).wf(),
            final(self).cells() == insert_column(old(self).cells(), col_no as int),
            final(self).row_count() == old(self).row_count(),
            final(self).col_count() == old(self).col_count() + 1,
            final(self).widths() == old(self).widths().insert(col_no as int, DEFAULT_WIDTH),
            final(self).cursor() == old(self).cursor(),
    {
        let ghost pre = *self;
        let nrows = self.rows.len();
        let mut col: Vec<Data> = Vec::new();
        let mut r: usize = 0;
        while r < nrows
            invariant
                r <= nrows,
                col@.len() == r,
                *self == pre,
                forall|j: int| 0 <= j < r ==> #[trigger] col@[j]@ == blank(),
            decreases nrows - r,
        {
            col.push(Data::empty_text());
            r += 1;
        }
        self.columns.insert(col_no, col);
        self.column_sizes.insert(col_no, DEFAULT_WIDTH);
        let mut r: usize = 0;
        while r < nrows
            invariant
                nrows == self.rows@.len(),
                nrows == pre.rows@.len(),
                r <= nrows,
                col_no <= pre.columns@.len(),
                self.columns@ == pre.columns@.insert(col_no as int, col),
                self.column_sizes@ == pre.column_sizes@.insert(col_no as int, DEFAULT_WIDTH),
                self.current_pos == pre.current_pos,
                pre.wf(),
                forall|j: int| 0 <= j < r ==> #[trigger] self.rows@[j]@ == pre.rows@[j]@.insert(col_no as int, self.rows@[j]@[col_no as int]),
                forall|j: int| 0 <= j < r ==> (#[trigger] self.rows@[j])@[col_no as int]@ == blank(),
                forall|j: int| r <= j < nrows ==> #[trigger] self.rows@[j] == pre.rows@[j],
            decreases nrows - r,
        {
            self.rows[r].insert(col_no, Data::empty_text());
            r += 1;
        }
        proof {
            let nc = self.columns@.len() as int;
            assert forall|c: int| 0 <= c < nc implies #[trigger] self.columns@[c]@.len() == self.rows@.len() by {
                if c > col_no {
                    assert(self.columns@[c] == pre.columns@[c - 1]);
                }
            }
            assert forall|r: int, c: int| 0 <= r < nrows && 0 <= c < nc implies #[trigger] self.rows@[r]@[c]@
                == #[trigger] self.columns@[c]@[r]@ by {
                if c < col_no {
                    assert(self.columns@[c] == pre.columns@[c]);
                } else if c > col_no {
                    assert(self.columns@[c] == pre.columns@[c - 1]);
                }
            }
            assert(self.cells() =~~= insert_column(pre.cells(), col_no as int)) by {
                assert forall|r: int| 0 <= r < nrows implies #[trigger] self.cells()[r] =~= insert_column(pre.cells(), col_no as int)[r] by {
                }
            }
        }
    }

    /// Removes the row at `row_no`; later rows move up. A cursor at or below it moves one
    /// row up (never above row 0).
    pub fn remove_row(&mut self, row_no: usize)
        requires
            old(self).wf(),
            row_no < old(self).row_count(),
        ensures
            final(self).wf(),
            final(self).cells() == old(self).cells().remove(row_no as int),
            final(self).row_count() == old(self).row_count() - 1,
            final(self).col_count() == old(self).col_count(),
            final(self).widths() == old(self).widths(),
            final(self).cursor() == (Position { row: shrunk(old(self).cursor().row, row_no), col: old(self).cursor().col }),
    {
        let ghost pre = *self;
        self.rows.remove(row_no);
        let ncols = self.columns.len();
        let mut c: usize = 0;
        while c < ncols
            invariant
                ncols == self.columns@.len(),
                ncols == pre.columns@.len(),
                c <= ncols,
                row_no < pre.rows@.len(),
                self.rows@ == pre.rows@.remove(row_no as int),
                pre.wf(),
                self.column_sizes == pre.column_sizes,
                self.current_pos == pre.current_pos,
                forall|j: int| 0 <= j < c ==> #[trigger] self.columns@[j]@ == pre.columns@[j]@.remove(row_no as int),
                forall|j: int| c <= j < ncols ==> #[trigger] self.columns@[j] == pre.columns@[j],
            decreases ncols - c,
        {
            self.columns[c].remove(row_no);
            c += 1;
        }
        if self.current_pos.row >= row_no && self.current_pos.row > 0 {
            self.current_pos.row = self.current_pos.row - 1;
        }
        proof {
            let nr = self.rows@.len() as int;
            assert forall|r: int| 0 <= r < nr implies #[trigger] self.rows@[r]@.len() == self.columns@.len() by {
                if r >= row_no {
                    assert(self.rows@[r] == pre.rows@[r + 1]);
                }
            }
            assert forall|r: int, c: int| 0 <= r < nr && 0 <= c < ncols implies #[trigger] self.rows@[r]@[c]@
                == #[trigger] self.columns@[c]@[r]@ by {
                if r < row_no {
                    assert(self.rows@[r] == pre.rows@[r]);
                } else {
                    assert(self.rows@[r] == pre.rows@[r + 1]);
                }
            }
            assert(self.cells() =~~= pre.cells().remove(row_no as int)) by {
                assert forall|r: int| 0 <= r < nr implies #[trigger] self.cells()[r] =~= pre.cells().remove(row_no as int)[r] by {
                    if r < row_no {
                        assert(self.rows@[r] == pre.rows@[r]);
                    } else {
                        assert(self.rows@[r] == pre.rows@[r + 1]);
                    }
                }
            }
        }
    }

    /// Removes the column at `col_no` and its width; later columns move left. A cursor at or
    /// right of it moves one column left (never left of column 0).
    pub fn remove_col(&mut self, col_no: usize)
        requires
            old(self).wf(),
            col_no < old(self).col_count(),
        ensures
            final(self).wf(),
            final(self).cells() == remove_column(old(self).cells(), col_no as int),
            final(self).row_count() == old(self).row_count(),
            final(self).col_count() == old(self).col_count() - 1,
            final(self).widths() == old(self).widths().remove(col_no as int),
            final(self).cursor() == (Position { row: old(self).cursor().row, col: shrunk(old(self).cursor().col, col_no) }),
    {
        let ghost pre = *self;
        self.column_sizes.remove(col_no);
        self.columns.remove(col_no);
        let nrows = self.rows.len();
        let mut r: usize = 0;
        while r < nrows
            invariant
                nrows == self.rows@.len(),
                nrows == pre.rows@.len(),
                r <= nrows,
                col_no < pre.columns@.len(),
                self.columns@ == pre.columns@.remove(col_no as int),
                self.column_sizes@ == pre.column_sizes@.remove(col_no as int),
                pre.wf(),
                self.current_pos == pre.current_pos,
                forall|j: int| 0 <= j < r ==> #[trigger] self.rows@[j]@ == pre.rows@[j]@.remove(col_no as int),
                forall|j: int| r <= j < nrows ==> #[trigger] self.rows@[j] == pre.rows@[j],
            decreases nrows - r,
        {
            self.rows[r].remove(col_no);
            r += 1;
        }
        if self.current_pos.col >= col_no && self.current_pos.col > 0 {
            self.current_pos.col = self.current_pos.col - 1;
        }
        proof {
            let nc = self.columns@.len() as int;
            assert forall|c: int| 0 <= c < nc implies #[trigger] self.columns@[c]@.len() == self.rows@.len() by {
                if c >= col_no {
                    assert(self.columns@[c] == pre.columns@[c + 1]);
                }
            }
            assert forall|r: int, c: int| 0 <= r < nrows && 0 <= c < nc implies #[trigger] self.rows@[r]@[c]@
                == #[trigger] self.columns@[c]@[r]@ by {
                if c < col_no {
                    assert(self.columns@[c] == pre.columns@[c]);
                } else {
                    assert(self.columns@[c] == pre.columns@[c + 1]);
                }
            }
            assert(self.cells() =~~= remove_column(pre.cells(), col_no as int)) by {
                assert forall|r: int| 0 <= r < nrows implies #[trigger] self.cells()[r] =~= remove_column(pre.cells(), col_no as int)[r] by {
                }
            }
        }
    }

    /// Moves the cursor to `row_no` and `col_no`; a coordinate outside the grid leaves that
    /// axis unchanged.
    pub fn set_cursor_pos(&mut self, row_no: usize, col_no: usize)
        requires
            old(self).wf(),
        ensures
            final(self).wf(),
            final(self).cells() == old(self).cells(),
            final(self).row_count() == old(self).row_count(),
            final(self).col_count() == old(self).col_count(),
            final(self).widths() == old(self).widths(),
            final(self).cursor().row == if row_no < old(self).row_count() { row_no } else { old(self).cursor().row },
            final(self).cursor().col == if col_no < old(self).col_count() { col_no } else { old(self).cursor().col },
    {
        if row_no < self.rows.len() {
            self.current_pos.row = row_no;
        }
        if col_no < self.columns.len() {
            self.current_pos.col = col_no;
        }
    }

    /// Moves the cursor one step, or to an edge; it stops at the grid's bounds.
    pub fn move_cursor(&mut self, direction: Direction)
        requires
            old(self).wf(),
        ensures
            final(self).wf(),
            final(self).cells() == old(self).cells(),
            final(self).row_count() == old(self).row_count(),
            final(self).col_count() == old(self).col_count(),
            final(self).widths() == old(self).widths(),
            final(self).cursor() == moved(old(self).cursor(), direction, old(self).row_count(), old(self).col_count()),
    {
        let last_row: usize = if self.rows.len() == 0 { 0 } else { self.rows.len() - 1 };
        let last_col: usize = if self.columns.len() == 0 { 0 } else { self.columns.len() - 1 };
        match direction {
            Direction::Up => {
                if self.current_pos.row > 0 {
                    self.current_pos.row = self.current_pos.row - 1;
                }
            },
            Direction::Down => {
                if self.current_pos.row < last_row {
                    self.current_pos.row = self.current_pos.row + 1;
                } else {
                    self.current_pos.row = last_row;
                }
            },
            Direction::Left => {
                if self.current_pos.col > 0 {
                    self.current_pos.col = self.current_pos.col - 1;
                }
            },
            Direction::Right => {
                if self.current_pos.col < last_col {
                    self.current_pos.col = self.current_pos.col + 1;
                } else {
                    self.current_pos.col = last_col;
                }
            },
            Direction::Bottom => {
                self.current_pos.row = last_row;
            },
            Direction::Top => {
                self.current_pos.row = 0;
            },
            Direction::MostLeft => {
                self.current_pos.col = 0;
            },
            Direction::MostRight => {
                self.current_pos.col = last_col;
            },
        }
    }

    /// Writes `value` at `position`, in both views.
    pub fn set_value_at_position(&mut self, position: &Position, value: Data)
        requires
            old(self).wf(),
            position.row < old(self).row_count(),
            position.col < old(self).col_count(),
        ensures
            final(self).wf(),
            final(self).cells() == old(self).cells().update(
                position.row as int,
                old(self).cells()[position.row as int].update(position.col as int, value@),
            ),
            final(self).row_count() == old(self).row_count(),
            final(self).col_count() == old(self).col_count(),
            final(self).widths() == old(self).widths(),
            final(self).cursor() == old(self).cursor(),
    {
        let ghost pre = *self;
        let r = position.row;
        let c = position.col;
        self.columns[c][r] = value.copy();
        self.rows[r][c] = value;
        proof {
            assert forall|i: int, j: int| 0 <= i < self.rows@.len() && 0 <= j < self.columns@.len() implies #[trigger] self.rows@[i]@[j]@
                == #[trigger] self.columns@[j]@[i]@ by {
                if i != r {
                    assert(self.rows@[i] == pre.rows@[i]);
                }
                if j != c {
                    assert(self.columns@[j] == pre.columns@[j]);
                }
            }
            assert forall|i: int| 0 <= i < self.rows@.len() implies #[trigger] self.rows@[i]@.len() == self.columns@.len() by {
                if i != r {
                    assert(self.rows@[i] == pre.rows@[i]);
                }
            }
            assert forall|j: int| 0 <= j < self.columns@.len() implies #[trigger] self.columns@[j]@.len() == self.rows@.len() by {
                if j != c {
                    assert(self.columns@[j] == pre.columns@[j]);
                }
            }
            assert(self.cells() =~~= pre.cells().update(r as int, pre.cells()[r as int].update(c as int, value@)));
        }
    }

    /// Replaces the cell at `pos` by `t` (used to turn a cell into another kind).
    pub fn convert_cell(&mut self, pos: &Position, t: Data)
        requires
            old(self).wf(),
            pos.row < old(self).row_count(),
            pos.col < old(self).col_count(),
        ensures
            final(self).wf(),
            final(self).cells() == old(self).cells().update(
                pos.row as int,
                old(self).cells()[pos.row as int].update(pos.col as int, t@),
            ),
            final(self).row_count() == old(self).row_count(),
            final(self).col_count() == old(self).col_count(),
            final(self).widths() == old(self).widths(),
            final(self).cursor() == old(self).cursor(),
    {
        self.set_value_at_position(pos, t);
    }

    /// Empties the cell at `position` (an empty text cell).
    pub fn clear_cell(&mut self, position: &Position)
        requires
            old(self).wf(),
            position.row < old(self).row_count(),
            position.col < old(self).col_count(),
        ensures
            final(self).wf(),
            final(self).cells() == old(self).cells().update(
                position.row as int,
                old(self).cells()[position.row as int].update(position.col as int, blank()),
            ),
            final(self).row_count() == old(self).row_count(),
            final(self).col_count() == old(self).col_count(),
            final(self).widths() == old(self).widths(),
            final(self).cursor() == old(self).cursor(),
    {
        self.set_value_at_position(position, Data::empty_text());
    }

    /// The cell at `position`, or an empty text cell outside the grid.
    pub fn get_value_at_position(&self, position: &Position) -> (r: Data)
        requires
            self.wf(),
        ensures
            r@ == self.cell_or_blank(position.row as int, position.col as int),
    {
        if position.row >= self.rows.len() || position.col >= self.columns.len() {
            return Data::empty_text();
        }
        self.rows[position.row][position.col].copy()
    }

    /// The cell at `(r, c)`, or an empty text cell outside the grid.
    pub open spec fn cell_or_blank(&self, r: int, c: int) -> CellView {
        if 0 <= r < self.row_count() && 0 <= c < self.col_count() {
            self.cell(r, c)
        } else {
            blank()
        }
    }

    /// Whether the cursor is on the last row (true on a grid without rows).
    pub fn cursor_at_bottom(&self) -> (r: bool)
        ensures
            r == (self.row_count() == 0 || self.cursor().row == self.row_count() - 1),
    {
        if self.rows.len() == 0 {
            return true;
        }
        self.current_pos.row == self.rows.len() - 1
    }

    /// Whether the cursor is on the last column (true on a grid without columns).
    pub fn cursor_at_right(&self) -> (r: bool)
        ensures
            r == (self.col_count() == 0 || self.cursor().col == self.col_count() - 1),
    {
        if self.columns.len() == 0 {
            return true;
        }
        self.current_pos.col == self.columns.len() - 1
    }

    /// Whether `(row_no, col_no)` is the cursor position.
    pub fn is_current_pos(&self, row_no: usize, col_no: usize) -> (r: bool)
        ensures
            r == (row_no == self.cursor().row && col_no == self.cursor().col),
    {
        row_no == self.current_pos.row && col_no == self.current_pos.col
    }

    /// Whether the cell under the cursor is an empty text or an empty formula.
    pub fn cursor_pos_is_empty(&self) -> (r: bool)
        requires
            self.wf(),
            self.cursor().row < self.row_count(),
            self.cursor().col < self.col_count(),
        ensures
            r == match self.cell(self.cursor().row as int, self.cursor().col as int) {
                CellView::Text(s) => s.len() == 0,
                CellView::Formula(s) => s.len() == 0,
                CellView::Number(_) => false,
            },
    {
        proof {
            let (r, c) = (self.current_pos.row as int, self.current_pos.col as int);
            assert(self.rows@[r]@[c]@ == self.columns@[c]@[r]@);
        }
        match &self.columns[self.current_pos.col][self.current_pos.row] {
            Data::String(s) => s.as_str().is_empty(),
            Data::Equation(s) => s.as_str().is_empty(),
            Data::Number(_) => false,
        }
    }

    /// The position that A1-style text denotes (see `parse_position`), or the origin when the
    /// text does not denote one.
    pub fn human_position_to_position(&self, position: String) -> (r: Position)
        ensures
            r == match position_of(position@) {
                Some(p) => p,
                None => Position { row: 0, col: 0 },
            },
    {
        match parse_position(position.as_str()) {
            Some(p) => p,
            None => Position { row: 0, col: 0 },
        }
    }

    /// The cells of the inclusive rectangle from `start` to `end`, row by row, with an empty
    /// text cell for each position outside the grid. Empty when `start` is below or right of
    /// `end`.
    pub open spec fn range_cells(&self, start: Position, end: Position) -> Seq<CellView> {
        if start.row > end.row || start.col > end.col {
            Seq::empty()
        } else {
            Seq::new(
                (end.row - start.row + 1) as nat,
                |i: int| Seq::new((end.col - start.col + 1) as nat, |j: int| self.cell_or_blank(start.row + i, start.col + j)),
            ).flatten()
        }
    }

    /// The cells of the inclusive rectangle from `start` to `end`, row-major.
    pub fn get_values_at_range(&self, start: &Position, end: &Position) -> (r: Vec<Data>)
        requires
            self.wf(),
        ensures
            views(r@) == self.range_cells(*start, *end),
    {
        let mut items: Vec<Data> = Vec::new();
        if start.row > end.row || start.col > end.col {
            assert(views(items@) =~= Seq::<CellView>::empty());
            return items;
        }
        let ghost w = (end.col - start.col + 1) as nat;
        let ghost done: Seq<Seq<CellView>> = Seq::empty();
        let mut row = start.row;
        loop
            invariant_except_break
                done.len() == row - start.row,
            invariant
                self.wf(),
                start.row <= row <= end.row,
                start.col <= end.col,
                w == (end.col - start.col + 1) as nat,
                forall|i: int| 0 <= i < done.len() ==> #[trigger] done[i] == Seq::new(w, |j: int| self.cell_or_blank(start.row + i, start.col + j)),
                views(items@) == done.flatten(),
            ensures
                done.len() == end.row - start.row + 1,
            decreases end.row - row,
        {
            let ghost line: Seq<CellView> = Seq::empty();
            let mut col = start.col;
            loop
                invariant_except_break
                    line.len() == col - start.col,
                invariant
                    self.wf(),
                    start.row <= row <= end.row,
                    start.col <= col <= end.col,
                    w == (end.col - start.col + 1) as nat,
                    done.len() == row - start.row,
                    forall|i: int| 0 <= i < done.len() ==> #[trigger] done[i] == Seq::new(w, |j: int| self.cell_or_blank(start.row + i, start.col + j)),
                    forall|j: int| 0 <= j < line.len() ==> #[trigger] line[j] == self.cell_or_blank(row as int, start.col + j),
                    views(items@) == done.flatten() + line,
                ensures
                    line.len() == w,
                decreases end.col - col,
            {
                let d = self.get_value_at_position(&Position { row, col });
                proof {
                    assert(views(items@.push(d)) =~= views(items@).push(d@));
                    line = line.push(d@);
                }
                items.push(d);
                if col == end.col {
                    break;
                }
                col = col + 1;
            }
            proof {
                let full = Seq::new(w, |j: int| self.cell_or_blank(start.row + done.len(), start.col + j));
                assert(line =~= full);
                done.lemma_flatten_push(line);
                done = done.push(line);
            }
            if row == end.row {
                break;
            }
            row = row + 1;
        }
        proof {
            let h = (end.row - start.row + 1) as nat;
            assert(done =~= Seq::new(h, |i: int| Seq::new(w, |j: int| self.cell_or_blank(start.row + i, start.col + j))));
        }
        items
    }

    /// Erases the last character of the cell at `position` (see `trimmed`).
    pub fn remove_last_char_in_cell(&mut self, position: &Position)
        requires
            old(self).wf(),
            position.row < old(self).row_count(),
            position.col < old(self).col_count(),
        ensures
            final(self).wf(),
            final(self).cells() == old(self).cells().update(
                position.row as int,
                old(self).cells()[position.row as int].update(
                    position.col as int,
                    trimmed(old(self).cell(position.row as int, position.col as int)),
                ),
            ),
            final(self).row_count() == old(self).row_count(),
            final(self).col_count() == old(self).col_count(),
            final(self).widths() == old(self).widths(),
            final(self).cursor() == old(self).cursor(),
    {
        let data = self.get_value_at_position(position);
        let new_value = match data {
            Data::Equation(s) => {
                let mut v = chars_of(s.as_str());
                if v.len() > 0 {
                    v.pop();
                }
                Data::Equation(string_of(&v))
            },
            Data::String(s) => {
                let mut v = chars_of(s.as_str());
                if v.len() <= 1 {
                    Data::empty_text()
                } else {
                    v.pop();
                    Data::String(string_of(&v))
                }
            },
            Data::Number(s) => {
                let mut v = chars_of(s.as_str());
                if v.len() <= 1 {
                    Data::empty_text()
                } else {
                    v.pop();
                    Data::Number(string_of(&v))
                }
            },
        };
        self.set_value_at_position(position, new_value);
    }

    /// Types `text` at the end of the cell at `position` (see `appended`).
    pub fn append_text_to_cell(&mut self, position: &Position, text: String)
        requires
            old(self).wf(),
            position.row < old(self).row_count(),
            position.col < old(self).col_count(),
        ensures
            final(self).wf(),
            final(self).cells() == old(self).cells().update(
                position.row as int,
                old(self).cells()[position.row as int].update(
                    position.col as int,
                    appended(old(self).cell(position.row as int, position.col as int), text@),
                ),
            ),
            final(self).row_count() == old(self).row_count(),
            final(self).col_count() == old(self).col_count(),
            final(self).widths() == old(self).widths(),
            final(self).cursor() == old(self).cursor(),
    {
        let data = self.get_value_at_position(position);
        let new_value = match data {
            Data::Equation(s) => {
                let mut new_str = s;
                push_text(&mut new_str, text.as_str());
                Data::Equation(new_str)
            },
            Data::Number(s) | Data::String(s) => {
                let mut new_str = s;
                push_text(&mut new_str, text.as_str());
                if parses_as_number(new_str.as_str()) {
                    Data::Number(new_str)
                } else {
                    Data::String(new_str)
                }
            },
        };
        self.set_value_at_position(position, new_value);
    }

    /// Pads every row with number cells `0` to the length of the longest.
    fn pad_rows(rows: &mut Vec<Vec<Data>>)
        ensures
            grid_views(final(rows)@) == padded(grid_views(old(rows)@)),
    {
        let ghost g = grid_views(rows@);
        let largest = largest_list_in_2d_array(rows);
        proof {
            lemma_widest(g);
            if rows@.len() > 0 {
                let r = choose|i: int| 0 <= i < rows@.len() && #[trigger] rows@[i]@.len() == largest;
                assert(g[r].len() == largest);
                assert(largest <= widest(g));
            }
            assert forall|i: int| 0 <= i < g.len() implies #[trigger] g[i].len() <= largest by {
                assert(rows@[i]@.len() <= largest);
            }
            if g.len() > 0 {
                let r = choose|r: int| 0 <= r < g.len() && #[trigger] g[r].len() == widest(g);
                assert(rows@[r]@.len() <= largest);
            }
            assert(largest == widest(g));
        }
        let n = rows.len();
        let mut i: usize = 0;
        while i < n
            invariant
                n == rows@.len(),
                n == g.len(),
                i <= n,
                largest == widest(g),
                forall|j: int| 0 <= j < n ==> #[trigger] g[j].len() <= largest,
                forall|j: int| 0 <= j < i ==> #[trigger] views(rows@[j]@) == padded(g)[j],
                forall|j: int| i <= j < n ==> #[trigger] views(rows@[j]@) == g[j],
            decreases n - i,
        {
            let ghost before = views(rows@[i as int]@);
            let mut k = rows[i].len();
            while k < largest
                invariant
                    i < n,
                    n == rows@.len(),
                    k <= largest,
                    rows@[i as int]@.len() == k,
                    before == g[i as int],
                    views(rows@[i as int]@) == before + Seq::new((k - before.len()) as nat, |j: int| zero()),
                    before.len() <= k,
                    forall|j: int| 0 <= j < i ==> #[trigger] views(rows@[j]@) == padded(g)[j],
                    forall|j: int| i < j < n ==> #[trigger] views(rows@[j]@) == g[j],
                decreases largest - k,
            {
                let ghost prev = rows@[i as int]@;
                let zc = vec!['0'];
                let z = Data::Number(string_of(&zc));
                proof {
                    assert(zc@ =~= seq!['0']);
                    assert(z@ == zero());
                    assert(views(prev.push(z)) =~= views(prev).push(z@));
                }
                rows[i].push(z);
                k += 1;
                proof {
                    assert(views(rows@[i as int]@) =~= before + Seq::new((k - before.len()) as nat, |j: int| zero()));
                }
            }
            proof {
                assert(views(rows@[i as int]@) =~= padded(g)[i as int]);
            }
            i += 1;
        }
        assert(grid_views(rows@) =~= padded(g));
    }

    /// A table of the given rows, each padded with number cells `0` to the length of the
    /// longest, and of the given widths, cut or filled with the default width to one per
    /// column; the cursor is at the origin.
    pub fn from_rows(rows: Vec<Vec<Data>>, widths: Vec<usize>) -> (r: Table)
        ensures
            r.wf(),
            r.cells() == padded(grid_views(rows@)),
            r.row_count() == rows@.len(),
            r.col_count() == widest(grid_views(rows@)),
            r.widths() == fit_widths(widths@, widest(grid_views(rows@))),
            r.cursor() == (Position { row: 0, col: 0 }),
    {
        let ghost g = grid_views(rows@);
        let mut rows = rows;
        Self::pad_rows(&mut rows);
        proof {
            lemma_widest(g);
        }
        let ncols = largest_list_in_2d_array(&rows);
        let nrows = rows.len();
        proof {
            let p = padded(g);
            assert(grid_views(rows@).len() == g.len());
            assert forall|r: int| 0 <= r < nrows implies #[trigger] rows@[r]@.len() == widest(g) by {
                assert(grid_views(rows@)[r] == p[r]);
                assert(g[r].len() <= widest(g));
                assert(views(rows@[r]@).len() == p[r].len());
            }
            if nrows > 0 {
                assert(rows@[0]@.len() == widest(g));
            }
            assert(ncols == widest(g));
        }
        let mut columns: Vec<Vec<Data>> = Vec::new();
        let mut c: usize = 0;
        while c < ncols
            invariant
                c <= ncols,
                nrows == rows@.len(),
                forall|r: int| 0 <= r < nrows ==> #[trigger] rows@[r]@.len() == ncols,
                columns@.len() == c,
                forall|j: int| 0 <= j < c ==> #[trigger] columns@[j]@.len() == nrows,
                forall|j: int, r: int| 0 <= j < c && 0 <= r < nrows ==> #[trigger] columns@[j]@[r]@ == rows@[r]@[j]@,
            decreases ncols - c,
        {
            let mut col: Vec<Data> = Vec::new();
            let mut r: usize = 0;
            while r < nrows
                invariant
                    r <= nrows,
                    c < ncols,
                    nrows == rows@.len(),
                    forall|i: int| 0 <= i < nrows ==> #[trigger] rows@[i]@.len() == ncols,
                    col@.len() == r,
                    forall|i: int| 0 <= i < r ==> #[trigger] col@[i]@ == rows@[i]@[c as int]@,
                decreases nrows - r,
            {
                col.push(rows[r][c].copy());
                r += 1;
            }
            columns.push(col);
            c += 1;
        }
        let mut column_sizes: Vec<usize> = Vec::new();
        let mut c: usize = 0;
        while c < ncols
            invariant
                c <= ncols,
                column_sizes@ == fit_widths(widths@, ncols as nat).take(c as int),
            decreases ncols - c,
        {
            if c < widths.len() {
                column_sizes.push(widths[c]);
            } else {
                column_sizes.push(DEFAULT_WIDTH);
            }
            c += 1;
            assert(column_sizes@ =~= fit_widths(widths@, ncols as nat).take(c as int));
        }
        assert(column_sizes@ =~= fit_widths(widths@, ncols as nat));
        let t = Table { rows, columns, current_pos: Position { row: 0, col: 0 }, column_sizes };
        proof {
            assert(t.cells() =~~= padded(g)) by {
                assert forall|r: int| 0 <= r < nrows implies #[trigger] t.cells()[r] =~= padded(g)[r] by {
                    assert(views(rows@[r]@) == padded(g)[r]);
                }
            }
        }
        t
    }

    /// A copy of the cells, row by row.
    pub fn get_rows(&self) -> (r: Vec<Vec<Data>>)
        requires
            self.wf(),
        ensures
            grid_views(r@) == self.cells(),
    {
        let mut out: Vec<Vec<Data>> = Vec::new();
        let mut i: usize = 0;
        while i < self.rows.len()
            invariant
                i <= self.rows@.len(),
                out@.len() == i,
                forall|j: int| 0 <= j < i ==> #[trigger] views(out@[j]@) == views(self.rows@[j]@),
            decreases self.rows@.len() - i,
        {
            let mut row: Vec<Data> = Vec::new();
            let mut k: usize = 0;
            while k < self.rows[i].len()
                invariant
                    i < self.rows@.len(),
                    k <= self.rows@[i as int]@.len(),
                    row@.len() == k,
                    forall|j: int| 0 <= j < k ==> #[trigger] row@[j]@ == self.rows@[i as int]@[j]@,
                decreases self.rows@[i as int]@.len() - k,
            {
                row.push(self.rows[i][k].copy());
                k += 1;
            }
            assert(views(row@) =~= views(self.rows@[i as int]@));
            out.push(row);
            i += 1;
        }
        proof {
            assert(grid_views(out@) =~~= self.cells()) by {
                assert forall|r: int| 0 <= r < out@.len() implies #[trigger] grid_views(out@)[r] =~= self.cells()[r] by {
                    assert(views(out@[r]@) == views(self.rows@[r]@));
                }
            }
        }
        out
    }

    /// Replaces every cell by those of `rows` (padded as in `from_rows`), rebuilding both
    /// views. Widths are kept for the columns that remain, new ones get the default width,
    /// and the cursor is moved back inside the new bounds.
    pub fn set_data(&mut self, rows: Vec<Vec<Data>>)
        ensures
            final(self).wf(),
            final(self).cells() == padded(grid_views(rows@)),
            final(self).row_count() == rows@.len(),
            final(self).col_count() == widest(grid_views(rows@)),
            final(self).widths() == fit_widths(old(self).widths(), widest(grid_views(rows@))),
            final(self).cursor().row == if old(self).cursor().row <= last_index(rows@.len()) {
                old(self).cursor().row as nat
            } else {
                last_index(rows@.len())
            },
            final(self).cursor().col == if old(self).cursor().col <= last_index(widest(grid_views(rows@))) {
                old(self).cursor().col as nat
            } else {
                last_index(widest(grid_views(rows@)))
            },
    {
        let pos = self.current_pos;
        let mut widths: Vec<usize> = Vec::new();
        std::mem::swap(&mut widths, &mut self.column_sizes);
        let mut t = Table::from_rows(rows, widths);
        let last_row: usize = if t.rows.len() == 0 { 0 } else { t.rows.len() - 1 };
        let last_col: usize = if t.columns.len() == 0 { 0 } else { t.columns.len() - 1 };
        t.current_pos = Position {
            row: if pos.row <= last_row { pos.row } else { last_row },
            col: if pos.col <= last_col { pos.col } else { last_col },
        };
        *self = t;
    }

    /// A table read from sheet tokens (see `sheet_data` and `sheet_widths`); rows are padded
    /// as in `from_rows` and the cursor is at the origin.
    pub fn from_sheet_tokens(toks: Vec<Token>) -> (r: Table)
        ensures
            r.wf(),
            r.cells() == padded(sheet_data(token_views(toks@))),
            r.widths() == fit_widths(sheet_widths(token_views(toks@)), widest(sheet_data(token_views(toks@)))),
            r.cursor() == (Position { row: 0, col: 0 }),
    {
        let ghost t = token_views(toks@);
        let n = toks.len();
        let mut rows: Vec<Vec<Data>> = Vec::new();
        let mut i: usize = 0;
        loop
            invariant
                n == toks@.len(),
                t == token_views(toks@),
                i <= n,
                rows_from_tokens(t, 0) == grid_views(rows@) + rows_from_tokens(t, i as int),
            ensures
                rows_from_tokens(t, i as int) =~= Seq::<Seq<CellView>>::empty(),
            decreases n - i,
        {
            if i >= n {
                break;
            }
            assert(t[i as int] == toks@[i as int]@);
            match &toks[i] {
                Token::LBracket => {},
                _ => {
                    assert(rows_from_tokens(t, i as int) =~= Seq::<Seq<CellView>>::empty());
                    break;
                },
            }
            let ghost start = i as int;
            let mut row: Vec<Data> = Vec::new();
            let mut k: usize = i + 1;
            let mut closed = false;
            assert(views(row@) =~= Seq::<CellView>::empty());
            loop
                invariant_except_break
                    !closed,
                    row_tokens(t, start + 1, Seq::empty()) == row_tokens(t, k as int, views(row@)),
                invariant
                    n == toks@.len(),
                    t == token_views(toks@),
                    start < k <= n,
                    0 <= start < n,
                    t[start] is LBracket,
                    rows_from_tokens(t, 0) == grid_views(rows@) + rows_from_tokens(t, start),
                ensures
                    closed ==> row_tokens(t, start + 1, Seq::empty()) == Some((views(row@), k as int)),
                    !closed ==> row_tokens(t, start + 1, Seq::empty()) == row_tokens(t, k as int, views(row@)) && k == n,
                decreases n - k,
            {
                if k >= n {
                    break;
                }
                let ghost before = views(row@);
                assert(t[k as int] == toks@[k as int]@);
                match &toks[k] {
                    Token::RBracket => {
                        closed = true;
                        k += 1;
                        break;
                    },
                    Token::String(x) => {
                        row.push(Data::String(x.clone()));
                    },
                    Token::Expr(x) => {
                        row.push(Data::Equation(x.clone()));
                    },
                    Token::Number(x) => {
                        row.push(Data::Number(x.clone()));
                    },
                    _ => {},
                }
                proof {
                    if row@.len() > before.len() {
                        assert(views(row@) =~= before.push(row@.last()@));
                    }
                }
                k += 1;
            }
            if !closed {
                proof {
                    assert(row_tokens(t, k as int, views(row@)) is None);
                }
                i = n;
                proof {
                    assert(rows_from_tokens(t, start) =~= Seq::<Seq<CellView>>::empty());
                    assert(rows_from_tokens(t, i as int) =~= Seq::<Seq<CellView>>::empty());
                    assert(grid_views(rows@) + rows_from_tokens(t, i as int) =~= grid_views(rows@));
                }
                break;
            }
            let ghost prev = rows@;
            rows.push(row);
            proof {
                assert(grid_views(rows@) =~= grid_views(prev).push(views(row@)));
                assert(grid_views(prev) + (seq![views(row@)] + rows_from_tokens(t, k as int)) =~= grid_views(rows@) + rows_from_tokens(t, k as int));
            }
            i = k;
        }
        proof {
            assert(grid_views(rows@) =~= rows_from_tokens(t, 0));
        }
        let widths: Vec<usize>;
        let ghost g = rows_from_tokens(t, 0);
        if rows.len() == 0 {
            let mut only: Vec<Data> = Vec::new();
            only.push(Data::empty_text());
            rows.push(only);
            let mut w: Vec<usize> = Vec::new();
            w.push(DEFAULT_WIDTH);
            widths = w;
            proof {
                assert(grid_views(rows@) =~~= seq![seq![blank()]]);
                assert(widths@ =~= seq![DEFAULT_WIDTH]);
            }
        } else {
            let mut all_num = true;
            let mut j: usize = 0;
            while j < rows[0].len()
                invariant
                    rows@.len() > 0,
                    j <= rows@[0]@.len(),
                    all_num <==> forall|q: int| 0 <= q < j ==> (#[trigger] rows@[0]@[q]) is Number,
                decreases rows@[0]@.len() - j,
            {
                match &rows[0][j] {
                    Data::Number(_) => {},
                    _ => {
                        all_num = false;
                    },
                }
                j += 1;
            }
            proof {
                assert(g[0] == views(rows@[0]@));
                assert(all_num <==> all_numbers(g[0])) by {
                    if all_num {
                        assert forall|q: int| 0 <= q < g[0].len() implies (#[trigger] g[0][q]) is Number by {
                            assert(rows@[0]@[q] is Number);
                        }
                    } else {
                        let q = choose|q: int| 0 <= q < rows@[0]@.len() && !((#[trigger] rows@[0]@[q]) is Number);
                        assert(!(g[0][q] is Number));
                    }
                }
            }
            if all_num {
                let first = rows.remove(0);
                let mut w: Vec<usize> = Vec::new();
                let mut q: usize = 0;
                while q < first.len()
                    invariant
                        q <= first@.len(),
                        w@.len() == q,
                        forall|m: int| 0 <= m < q ==> #[trigger] w@[m] == width_of(first@[m]@),
                    decreases first@.len() - q,
                {
                    w.push(Self::width_of_cell(&first[q]));
                    q += 1;
                }
                proof {
                    assert(g[0] == views(first@));
                    assert(w@ =~= g[0].map_values(|c: CellView| width_of(c)));
                    assert(grid_views(rows@) =~= g.drop_first());
                }
                widths = w;
            } else {
                widths = Vec::new();
                proof {
                    assert(widths@ =~= Seq::<usize>::empty());
                }
            }
        }
        Table::from_rows(rows, widths)
    }

    fn width_of_cell(d: &Data) -> (r: usize)
        ensures
            r == width_of(d@),
    {
        match d {
            Data::Number(x) => {
                let v = chars_of(x.as_str());
                let mut k: usize = 0;
                while k < v.len() && v[k] != '.'
                    invariant
                        v@ == x@,
                        k <= v.len(),
                        point_index(x@, 0) == point_index(x@, k as int),
                    decreases v.len() - k,
                {
                    k += 1;
                }
                let mut d: Vec<char> = Vec::new();
                let mut q: usize = 0;
                while q < k
                    invariant
                        q <= k <= v.len(),
                        d@ == v@.take(q as int),
                    decreases k - q,
                {
                    d.push(v[q]);
                    q += 1;
                    assert(d@ =~= v@.take(q as int));
                }
                match digits_value(&d) {
                    Some(w) => w,
                    None => DEFAULT_WIDTH,
                }
            },
            _ => DEFAULT_WIDTH,
        }
    }

    fn csv_row(line: &Vec<char>, seperator: char) -> (r: Vec<Data>)
        ensures
            views(r@) == csv_line(line@, seperator),
    {
        let fields = split_chars(line, seperator);
        let mut row: Vec<Data> = Vec::new();
        let mut i: usize = 0;
        while i < fields.len()
            invariant
                i <= fields@.len(),
                char_lines(fields@) == split(line@, seperator),
                views(row@) == csv_line(line@, seperator).take(i as int),
            decreases fields@.len() - i,
        {
            let text = string_of(&fields[i]);
            let cell = if parses_as_number(text.as_str()) { Data::Number(text) } else { Data::String(text) };
            let ghost before = row@;
            let ghost cv = cell@;
            proof {
                assert(char_lines(fields@)[i as int] == fields@[i as int]@);
                assert(cv == csv_cell(split(line@, seperator)[i as int]));
                assert(csv_line(line@, seperator)[i as int] == cv);
            }
            row.push(cell);
            proof {
                assert(views(row@) =~= views(before).push(cv));
                assert(views(row@) =~= csv_line(line@, seperator).take(i + 1));
            }
            i += 1;
        }
        assert(csv_line(line@, seperator).take(i as int) =~= csv_line(line@, seperator));
        row
    }

    /// A table read from CSV text (see `csv_data`), padded as in `from_rows`, with default
    /// widths and the cursor at the origin.
    pub fn from_csv(text: &str, seperator: char) -> (r: Table)
        ensures
            r.wf(),
            r.cells() == padded(csv_data(text@, seperator)),
            r.widths() == fit_widths(Seq::empty(), widest(csv_data(text@, seperator))),
            r.cursor() == (Position { row: 0, col: 0 }),
    {
        let mut rows: Vec<Vec<Data>> = Vec::new();
        if seperator == '\n' {
            assert(grid_views(rows@) =~= csv_data(text@, seperator));
            return Table::from_rows(rows, Vec::new());
        }
        let chars = chars_of(text);
        let lines = split_chars(&chars, '\n');
        let ghost ls = split(text@, '\n');
        let ghost full = ls.drop_last().map_values(|l: Seq<char>| csv_line(l, seperator));
        let nfull = lines.len() - 1;
        let mut i: usize = 0;
        while i < nfull
            invariant
                nfull + 1 == lines@.len(),
                i <= nfull,
                char_lines(lines@) == ls,
                full == ls.drop_last().map_values(|l: Seq<char>| csv_line(l, seperator)),
                grid_views(rows@) == full.take(i as int),
            decreases nfull - i,
        {
            let row = Self::csv_row(&lines[i], seperator);
            let ghost before = rows@;
            let ghost rv = views(row@);
            proof {
                assert(ls[i as int] == lines@[i as int]@);
                assert(full[i as int] == rv);
            }
            rows.push(row);
            proof {
                assert(grid_views(rows@) =~= grid_views(before).push(rv));
                assert(grid_views(rows@) =~= full.take(i + 1));
            }
            i += 1;
        }
        assert(full.take(nfull as int) =~= full);
        let last = Self::csv_row(&lines[nfull], seperator);
        proof {
            assert(ls[nfull as int] == lines@[nfull as int]@);
        }
        if rows.len() > 0 && last.len() == rows[0].len() {
            let ghost before = rows@;
            rows.push(last);
            assert(grid_views(rows@) =~= csv_data(text@, seperator));
        } else {
            assert(grid_views(rows@) =~= csv_data(text@, seperator));
        }
        Table::from_rows(rows, Vec::new())
    }

    fn cell_chars(d: &Data) -> (r: Vec<char>)
        ensures
            r@ == cell_text(d@),
    {
        let mut v: Vec<char> = Vec::new();
        match d {
            Data::String(t) => {
                v.push('"');
                extend_chars(&mut v, &chars_of(t.as_str()));
                v.push('"');
            },
            Data::Number(n) => {
                extend_chars(&mut v, &chars_of(n.as_str()));
            },
            Data::Equation(f) => {
                v.push('(');
                extend_chars(&mut v, &chars_of(f.as_str()));
                v.push(')');
            },
        }
        assert(v@ =~= cell_text(d@));
        v
    }

    /// The table in the sheet text format (see `sheet_text`); every number cell must hold
    /// text that reads as a number.
    pub fn to_sheet(&self) -> (r: String)
        requires
            self.wf(),
            numbers_valid(self.cells()),
        ensures
            r@ == sheet_text(self.widths(), self.cells()),
    {
        let mut out: Vec<char> = Vec::new();
        out.push('[');
        let mut i: usize = 0;
        while i < self.column_sizes.len()
            invariant
                i <= self.column_sizes@.len(),
                out@ == seq!['['] + widths_text(self.column_sizes@.take(i as int)),
            decreases self.column_sizes@.len() - i,
        {
            let ghost before = out@;
            extend_chars(&mut out, &usize_text(self.column_sizes[i]));
            out.push(',');
            proof {
                let w = self.column_sizes@.take(i + 1);
                assert(w.drop_last() == self.column_sizes@.take(i as int));
                assert(out@ =~= seq!['['] + widths_text(w));
            }
            i += 1;
        }
        assert(self.column_sizes@.take(i as int) == self.column_sizes@);
        out.push(']');
        out.push('\n');
        let ghost head = out@;
        assert(head =~= seq!['['] + widths_text(self.widths()) + seq![']', '\n']);
        let ghost g = self.cells();
        proof {
            self.lemma_shape();
        }
        let mut r: usize = 0;
        while r < self.rows.len()
            invariant
                self.wf(),
                g == self.cells(),
                r <= self.rows@.len(),
                out@ == head + rows_text(g.take(r as int)),
            decreases self.rows@.len() - r,
        {
            proof {
                self.lemma_shape();
            }
            let ghost line_start = out@;
            out.push('[');
            let mut c: usize = 0;
            while c < self.rows[r].len()
                invariant
                    self.wf(),
                    g == self.cells(),
                    r < self.rows@.len(),
                    c <= self.rows@[r as int]@.len(),
                    out@ == line_start + seq!['['] + row_text(g[r as int].take(c as int)),
                decreases self.rows@[r as int]@.len() - c,
            {
                proof {
                    self.lemma_shape();
                }
                extend_chars(&mut out, &Self::cell_chars(&self.rows[r][c]));
                out.push(',');
                proof {
                    let p = g[r as int].take(c + 1);
                    assert(p.drop_last() == g[r as int].take(c as int));
                    assert(p.last() == self.rows@[r as int]@[c as int]@);
                    assert(out@ =~= line_start + seq!['['] + row_text(p));
                }
                c += 1;
            }
            proof {
                self.lemma_shape();
                assert(g[r as int].take(c as int) =~= g[r as int]);
            }
            out.push(']');
            out.push('\n');
            proof {
                let q = g.take(r + 1);
                assert(q.drop_last() == g.take(r as int));
                assert(out@ =~= head + rows_text(q));
            }
            r += 1;
        }
        assert(g.take(r as int) == g);
        string_of(&out)
    }

    /// The rows to show around the cursor: first index and one past the last (see `window`).
    pub fn find_displayable_rows(&self, rows_to_view: usize) -> (r: [usize; 2])
        requires
            self.wf(),
        ensures
            (r[0] as nat, r[1] as nat) == window(self.cursor().row as nat, self.row_count(), rows_to_view as nat),
    {
        let at = self.current_pos.row;
        let len = self.rows.len();
        let half = rows_to_view / 2;
        let before = if half > at { at } else { half };
        let after = if half >= len - at { len - at } else { half };
        [at - before, at + after]
    }

    /// The columns to show around the cursor: first index and one past the last (see
    /// `window`).
    pub fn find_displayable_cols(&self, cols_to_view: usize) -> (r: [usize; 2])
        requires
            self.wf(),
        ensures
            (r[0] as nat, r[1] as nat) == window(self.cursor().col as nat, self.col_count(), cols_to_view as nat),
    {
        let at = self.current_pos.col;
        let len = self.columns.len();
        let half = cols_to_view / 2;
        let before = if half > at { at } else { half };
        let after = if half >= len - at { len - at } else { half };
        [at - before, at + after]
    }
}

/// In every well-formed table, and so after any sequence of the table's operations, the
/// row view and the column view are transposes of each other: the cell at row `r` and
/// column `c` is the same in both.
pub proof fn lemma_views_are_transposes(t: &Table)
    requires
        t.wf(),
    ensures
        t.cells().len() == t.row_count(),
        t.column_cells().len() == t.col_count(),
        forall|r: int| 0 <= r < t.row_count() ==> #[trigger] t.cells()[r].len() == t.col_count(),
        forall|c: int| 0 <= c < t.col_count() ==> #[trigger] t.column_cells()[c].len() == t.row_count(),
        forall|r: int, c: int|
            0 <= r < t.row_count() && 0 <= c < t.col_count() ==> #[trigger] t.cells()[r][c] == #[trigger] t.column_cells()[c][r],
{
    assert forall|r: int, c: int| 0 <= r < t.row_count() && 0 <= c < t.col_count() implies #[trigger] t.cells()[r][c]
        == #[trigger] t.column_cells()[c][r] by {
        assert(t.rows@[r]@[c]@ == t.columns@[c]@[r]@);
    }
}

} // verus!
