//! The table renderer: rows of styled cells laid out in a bordered,
//! column-aligned grid. Cells are run through the tag lexer when a row is
//! added; at render time columns are sized by visible width, so escape
//! bytes never count toward alignment.

use vstd::prelude::*;

use crate::lexer::{apply_styles, spec_apply, spec_visible_width, visible_width};
use crate::text::{chars_to_string, push_lit};

verus! {

/// A table under construction: an ordered collection of rows, each an
/// ordered collection of already-styled strings. Rows may have different
/// lengths; missing cells render empty.
pub struct Table {
    rows: Vec<Vec<String>>,
}

impl View for Table {
    type V = Seq<Seq<Seq<char>>>;

    closed spec fn view(&self) -> Seq<Seq<Seq<char>>> {
        Seq::new(
            self.rows@.len(),
            |i: int| Seq::new(self.rows@[i]@.len(), |j: int| self.rows@[i]@[j]@),
        )
    }
}

/// The cells of one row after each is run through the tag lexer.
pub open spec fn styled_row(cells: Seq<String>) -> Seq<Seq<char>> {
    Seq::new(cells.len(), |j: int| spec_apply(cells[j]@))
}

impl Table {
    /// An empty table.
    pub fn new() -> (t: Table)
        ensures
            t@ == Seq::<Seq<Seq<char>>>::empty(),
    {
        let t = Table { rows: Vec::new() };
        proof {
            assert(t@ =~= Seq::<Seq<Seq<char>>>::empty());
        }
        t
    }

    /// Append a row, resolving the markup of every cell.
    pub fn add_row(&mut self, cells: Vec<String>)
        ensures
            final(self)@ == old(self)@.push(styled_row(cells@)),
    {
        let mut styled: Vec<String> = Vec::new();
        let n = cells.len();
        let mut j: usize = 0;
        while j < n
            invariant
                n == cells@.len(),
                j <= n,
                styled@.len() == j,
                forall|k: int| 0 <= k < j ==> styled@[k]@ == spec_apply(cells@[k]@),
            decreases n - j,
        {
            styled.push(apply_styles(cells[j].as_str()));
            j = j + 1;
        }
        self.rows.push(styled);
        proof {
            assert(self@ =~~= old(self)@.push(styled_row(cells@)));
        }
    }
}

/// The greatest row length among the first `i` rows.
pub open spec fn max_cols_upto(rows: Seq<Seq<Seq<char>>>, i: int) -> int
    decreases i,
{
    if i <= 0 {
        0
    } else {
        let l = rows[i - 1].len() as int;
        let m = max_cols_upto(rows, i - 1);
        if l > m {
            l
        } else {
            m
        }
    }
}

/// The table's column count: the greatest row length.
pub open spec fn max_cols(rows: Seq<Seq<Seq<char>>>) -> int {
    max_cols_upto(rows, rows.len() as int)
}

/// The cell at row `i`, column `j`; empty where the row is too short.
pub open spec fn cell_at(rows: Seq<Seq<Seq<char>>>, i: int, j: int) -> Seq<char> {
    if 0 <= i < rows.len() && 0 <= j < rows[i].len() {
        rows[i][j]
    } else {
        Seq::empty()
    }
}

/// The width of column `j` over the first `i` rows: the greatest visible
/// cell width, and at least one.
pub open spec fn col_width_upto(rows: Seq<Seq<Seq<char>>>, j: int, i: int) -> int
    decreases i,
{
    if i <= 0 {
        1
    } else {
        let w = spec_visible_width(cell_at(rows, i - 1, j)) as int;
        let m = col_width_upto(rows, j, i - 1);
        if w > m {
            w
        } else {
            m
        }
    }
}

/// The width of column `j`: the greatest visible cell width, at least one.
pub open spec fn col_width(rows: Seq<Seq<Seq<char>>>, j: int) -> int {
    col_width_upto(rows, j, rows.len() as int)
}

/// `k` copies of `c`.
pub open spec fn repeat_char(c: char, k: int) -> Seq<char> {
    if k <= 0 {
        Seq::empty()
    } else {
        Seq::new(k as nat, |x: int| c)
    }
}

/// The horizontal run of a border or separator line from column `j` on:
/// for each column, the fill character over the column width plus the two
/// padding spaces, with a junction between columns.
pub open spec fn border_cells(
    rows: Seq<Seq<Seq<char>>>,
    nc: int,
    j: int,
    fill: char,
    junction: char,
) -> Seq<char>
    decreases nc - j,
{
    if j < 0 || j >= nc {
        Seq::empty()
    } else {
        repeat_char(fill, col_width(rows, j) + 2) + (if j + 1 < nc {
            seq![junction]
        } else {
            Seq::empty()
        }) + border_cells(rows, nc, j + 1, fill, junction)
    }
}

pub open spec fn top_border(rows: Seq<Seq<Seq<char>>>, nc: int) -> Seq<char> {
    seq!['┌'] + border_cells(rows, nc, 0, '─', '┬') + seq!['┐', '\n']
}

pub open spec fn sep_line(rows: Seq<Seq<Seq<char>>>, nc: int) -> Seq<char> {
    seq!['├'] + border_cells(rows, nc, 0, '╌', '┼') + seq!['┤', '\n']
}

pub open spec fn bottom_border(rows: Seq<Seq<Seq<char>>>, nc: int) -> Seq<char> {
    seq!['└'] + border_cells(rows, nc, 0, '─', '┴') + seq!['┘']
}

/// The interior of row `i` from column `j` on: each cell padded with one
/// leading space and with trailing spaces to one past the column width,
/// measured by visible width, with an interior separator between cells.
pub open spec fn row_cells(rows: Seq<Seq<Seq<char>>>, nc: int, i: int, j: int) -> Seq<char>
    decreases nc - j,
{
    if j < 0 || j >= nc {
        Seq::empty()
    } else {
        let cell = cell_at(rows, i, j);
        seq![' '] + cell + repeat_char(
            ' ',
            col_width(rows, j) - spec_visible_width(cell) + 1,
        ) + (if j + 1 < nc {
            seq!['┆']
        } else {
            Seq::empty()
        }) + row_cells(rows, nc, i, j + 1)
    }
}

pub open spec fn row_line(rows: Seq<Seq<Seq<char>>>, nc: int, i: int) -> Seq<char> {
    seq!['│'] + row_cells(rows, nc, i, 0) + seq!['│', '\n']
}

/// The rendered rows from `i` on: each row line, with a dashed separator
/// between consecutive rows and none after the last.
pub open spec fn body_from(rows: Seq<Seq<Seq<char>>>, nc: int, i: int) -> Seq<char>
    decreases rows.len() - i,
{
    if i < 0 || i >= rows.len() {
        Seq::empty()
    } else {
        row_line(rows, nc, i) + (if i + 1 < rows.len() {
            sep_line(rows, nc)
        } else {
            Seq::empty()
        }) + body_from(rows, nc, i + 1)
    }
}

/// What `render` returns: the fixed two-line placeholder for a table with
/// no rows or no columns, and otherwise the bordered grid: top border, the
/// rows separated by dashed lines, bottom border.
pub open spec fn spec_render(rows: Seq<Seq<Seq<char>>>) -> Seq<char> {
    if rows.len() == 0 || max_cols(rows) == 0 {
        "┌┐\n└┘"@
    } else {
        top_border(rows, max_cols(rows)) + body_from(rows, max_cols(rows), 0) + bottom_border(
            rows,
            max_cols(rows),
        )
    }
}

/// A table with no rows renders as the fixed two-line placeholder.
pub proof fn lemma_render_empty(rows: Seq<Seq<Seq<char>>>)
    requires
        rows.len() == 0,
    ensures
        spec_render(rows) == "┌┐\n└┘"@,
{
}

/// A column is at least as wide as each of its cells.
proof fn lemma_col_width_bound(rows: Seq<Seq<Seq<char>>>, j: int, i: int, k: int)
    requires
        0 <= i < k,
    ensures
        col_width_upto(rows, j, k) >= spec_visible_width(cell_at(rows, i, j)),
    decreases k,
{
    if i < k - 1 {
        lemma_col_width_bound(rows, j, i, k - 1);
    }
}

/// Append `k` copies of `c` to `out`.
fn push_repeat(out: &mut Vec<char>, c: char, k: usize)
    ensures
        final(out)@ == old(out)@ + repeat_char(c, k as int),
{
    let mut x: usize = 0;
    proof {
        assert(out@ =~= old(out)@ + repeat_char(c, 0));
    }
    while x < k
        invariant
            x <= k,
            out@ == old(out)@ + repeat_char(c, x as int),
        decreases k - x,
    {
        out.push(c);
        proof {
            assert(out@ =~= old(out)@ + repeat_char(c, x as int + 1));
        }
        x = x + 1;
    }
}

/// Append the horizontal run of one border or separator line to `out`.
#[verifier::loop_isolation(false)]
fn push_border_cells(
    out: &mut Vec<char>,
    widths: &Vec<usize>,
    nc: usize,
    fill: char,
    junction: char,
    Ghost(rows): Ghost<Seq<Seq<Seq<char>>>>,
)
    requires
        nc <= widths@.len(),
        forall|j: int| 0 <= j < nc ==> widths@[j] as int == col_width(rows, j),
    ensures
        final(out)@ == old(out)@ + border_cells(rows, nc as int, 0, fill, junction),
{
    let mut j: usize = 0;
    while j < nc
        invariant
            j <= nc,
            out@ + border_cells(rows, nc as int, j as int, fill, junction) == old(out)@
                + border_cells(rows, nc as int, 0, fill, junction),
        decreases nc - j,
    {
        let ghost pre = out@;
        let w = widths[j];
        push_repeat(out, fill, w);
        out.push(fill);
        out.push(fill);
        proof {
            assert(out@ =~= pre + repeat_char(fill, w as int + 2));
        }
        if j + 1 < nc {
            out.push(junction);
        }
        proof {
            assert(out@ + border_cells(rows, nc as int, j as int + 1, fill, junction) =~= pre
                + border_cells(rows, nc as int, j as int, fill, junction));
        }
        j = j + 1;
    }
    proof {
        assert(out@ =~= out@ + border_cells(rows, nc as int, nc as int, fill, junction));
    }
}

impl Table {
    /// Returns the table as a bordered grid in fixed box-drawing
    /// characters: column widths fit the widest visible cell content,
    /// short rows are padded with empty cells, and a dashed separator
    /// stands between consecutive rows.
    #[verifier::loop_isolation(false)]
    #[verifier::rlimit(100)]
    pub fn render(&self) -> (r: String)
        ensures
            r@ == spec_render(self@),
    {
        let ghost rows = self@;
        let nr = self.rows.len();
        let mut nc: usize = 0;
        let mut i: usize = 0;
        while i < nr
            invariant
                i <= nr,
                nc as int == max_cols_upto(rows, i as int),
            decreases nr - i,
        {
            let l = self.rows[i].len();
            if l > nc {
                nc = l;
            }
            i = i + 1;
        }
        if nr == 0 || nc == 0 {
            let mut out: Vec<char> = Vec::new();
            push_lit(&mut out, "┌┐\n└┘");
            return chars_to_string(&out);
        }
        let mut widths: Vec<usize> = Vec::new();
        let mut j: usize = 0;
        while j < nc
            invariant
                j <= nc,
                widths@.len() == j,
                forall|k: int| 0 <= k < j ==> widths@[k] as int == col_width(rows, k),
            decreases nc - j,
        {
            let mut w: usize = 1;
            let mut i2: usize = 0;
            while i2 < nr
                invariant
                    i2 <= nr,
                    w as int == col_width_upto(rows, j as int, i2 as int),
                decreases nr - i2,
            {
                if j < self.rows[i2].len() {
                    let cw = visible_width(self.rows[i2][j].as_str());
                    if cw > w {
                        w = cw;
                    }
                } else {
                    proof {
                        assert(cell_at(rows, i2 as int, j as int) =~= Seq::<char>::empty());
                    }
                }
                i2 = i2 + 1;
            }
            widths.push(w);
            j = j + 1;
        }
        let mut out: Vec<char> = Vec::new();
        out.push('┌');
        push_border_cells(&mut out, &widths, nc, '─', '┬', Ghost(rows));
        out.push('┐');
        out.push('\n');
        proof {
            assert(out@ =~= top_border(rows, nc as int));
        }
        let ghost gtop = out@;
        let mut i3: usize = 0;
        while i3 < nr
            invariant
                i3 <= nr,
                out@ + body_from(rows, nc as int, i3 as int) == gtop + body_from(
                    rows,
                    nc as int,
                    0,
                ),
            decreases nr - i3,
        {
            let ghost pre_row = out@;
            out.push('│');
            let ghost row_base = out@;
            let mut j2: usize = 0;
            while j2 < nc
                invariant
                    j2 <= nc,
                    out@ + row_cells(rows, nc as int, i3 as int, j2 as int) == row_base + row_cells(
                        rows,
                        nc as int,
                        i3 as int,
                        0,
                    ),
                decreases nc - j2,
            {
                let ghost pre_cell = out@;
                let w = widths[j2];
                out.push(' ');
                if j2 < self.rows[i3].len() {
                    let cw = visible_width(self.rows[i3][j2].as_str());
                    push_lit(&mut out, self.rows[i3][j2].as_str());
                    proof {
                        lemma_col_width_bound(rows, j2 as int, i3 as int, nr as int);
                    }
                    push_repeat(&mut out, ' ', w - cw);
                    out.push(' ');
                    proof {
                        let cell = cell_at(rows, i3 as int, j2 as int);
                        assert(out@ =~= pre_cell + (seq![' '] + cell + repeat_char(
                            ' ',
                            col_width(rows, j2 as int) - spec_visible_width(cell) + 1,
                        )));
                    }
                } else {
                    push_repeat(&mut out, ' ', w);
                    out.push(' ');
                    proof {
                        let cell = cell_at(rows, i3 as int, j2 as int);
                        assert(cell =~= Seq::<char>::empty());
                        assert(out@ =~= pre_cell + (seq![' '] + cell + repeat_char(
                            ' ',
                            col_width(rows, j2 as int) - spec_visible_width(cell) + 1,
                        )));
                    }
                }
                if j2 + 1 < nc {
                    out.push('┆');
                }
                proof {
                    assert(out@ + row_cells(rows, nc as int, i3 as int, j2 as int + 1) =~= pre_cell
                        + row_cells(rows, nc as int, i3 as int, j2 as int));
                }
                j2 = j2 + 1;
            }
            out.push('│');
            out.push('\n');
            proof {
                assert(out@ =~= pre_row + row_line(rows, nc as int, i3 as int));
            }
            if i3 + 1 < nr {
                out.push('├');
                push_border_cells(&mut out, &widths, nc, '╌', '┼', Ghost(rows));
                out.push('┤');
                out.push('\n');
                proof {
                    assert(out@ =~= pre_row + row_line(rows, nc as int, i3 as int) + sep_line(
                        rows,
                        nc as int,
                    ));
                }
            }
            proof {
                assert(out@ + body_from(rows, nc as int, i3 as int + 1) =~= pre_row + body_from(
                    rows,
                    nc as int,
                    i3 as int,
                ));
            }
            i3 = i3 + 1;
        }
        proof {
            assert(out@ =~= gtop + body_from(rows, nc as int, 0));
        }
        out.push('└');
        push_border_cells(&mut out, &widths, nc, '─', '┴', Ghost(rows));
        out.push('┘');
        proof {
            assert(out@ =~= spec_render(rows));
        }
        chars_to_string(&out)
    }
}

} // verus!
