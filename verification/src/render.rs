//! The text form of a grid: a bordered block in which each printed row shows
//! two rows of cells.

use vstd::prelude::*;
use vstd::string::StringExecFns;
use crate::grid::Grid;
use crate::model::GridModel;

verus! {

/// The character that shows a cell of the upper row above a cell of the lower row.
pub open spec fn glyph(upper: bool, lower: bool) -> char {
    if upper {
        if lower {
            '█'
        } else {
            '▀'
        }
    } else {
        if lower {
            '▄'
        } else {
            ' '
        }
    }
}

/// The table of glyphs: dead over alive is the lower half block, alive over
/// dead the upper half block, alive over alive the full block, and dead over
/// dead a space.
pub proof fn lemma_glyph_table()
    ensures
        glyph(false, true) == '\u{2584}',
        glyph(true, false) == '\u{2580}',
        glyph(true, true) == '\u{2588}',
        glyph(false, false) == ' ',
{
}

/// The shorter of two lengths.
pub open spec fn shorter(a: nat, b: nat) -> nat {
    if a <= b {
        a
    } else {
        b
    }
}

/// The printed row for two rows of cells: one glyph per column that both rows
/// have, between two bars.
pub open spec fn row_line(up_row: Seq<bool>, down_row: Seq<bool>) -> Seq<char> {
    seq!['|'] + Seq::new(
        shorter(up_row.len(), down_row.len()),
        |i: int| glyph(up_row[i], down_row[i]),
    ) + seq!['|']
}

/// The top and bottom edge of a block that is `width` cells wide.
pub open spec fn border(width: int) -> Seq<char> {
    seq!['+'] + Seq::new(width as nat, |i: int| '-') + seq!['+']
}

/// The lines joined by a line feed between each two of them.
pub open spec fn join_lines(lines: Seq<Seq<char>>) -> Seq<char>
    decreases lines.len(),
{
    if lines.len() == 0 {
        Seq::empty()
    } else if lines.len() == 1 {
        lines[0]
    } else {
        join_lines(lines.drop_last()) + seq!['\n'] + lines.last()
    }
}

impl GridModel {
    /// The lines of the text form: an edge, one line for each full pair of
    /// rows, and an edge. A last row without a partner is not shown.
    pub open spec fn lines(self) -> Seq<Seq<char>> {
        Seq::new(
            (self.height / 2 + 2) as nat,
            |k: int|
                if k == 0 || k == self.height / 2 + 1 {
                    border(self.width)
                } else {
                    row_line(self.row(2 * (k - 1)), self.row(2 * (k - 1) + 1))
                },
        )
    }

    /// The text form of the grid.
    pub open spec fn text(self) -> Seq<char> {
        join_lines(self.lines())
    }

    /// The shape of the text form: `height / 2 + 2` lines, each of `width + 2`
    /// characters, none of them a line feed, so that the line feeds in the
    /// text are exactly those between the lines.
    pub proof fn lemma_lines_shape(self)
        requires
            self.wf(),
        ensures
            self.lines().len() == self.height / 2 + 2,
            forall|k: int|
                0 <= k < self.lines().len() ==> (#[trigger] self.lines()[k]).len() == self.width
                    + 2,
            forall|k: int, j: int|
                0 <= k < self.lines().len() && 0 <= j < self.width + 2 ==> (
                #[trigger] self.lines()[k][j]) != '\n',
            self.text().len() == (self.height / 2 + 2) * (self.width + 2) + self.height / 2 + 1,
    {
        let lines = self.lines();
        let w = self.width;
        assert forall|k: int| 0 <= k < lines.len() implies (#[trigger] lines[k]).len() == w + 2 by {
            if !(k == 0 || k == self.height / 2 + 1) {
                self.lemma_row_len(2 * (k - 1));
                self.lemma_row_len(2 * (k - 1) + 1);
            }
        }
        assert forall|k: int, j: int| 0 <= k < lines.len() && 0 <= j < w + 2 implies (
        #[trigger] lines[k][j]) != '\n' by {
            if !(k == 0 || k == self.height / 2 + 1) {
                self.lemma_row_len(2 * (k - 1));
                self.lemma_row_len(2 * (k - 1) + 1);
            }
        }
        lemma_join_len(lines, w + 2);
        assert((self.height / 2 + 2) * (w + 2) + (self.height / 2 + 2) - 1 == (self.height / 2
            + 2) * (w + 2) + self.height / 2 + 1);
    }

    /// Each row inside the grid has `width` cells.
    pub proof fn lemma_row_len(self, y: int)
        requires
            self.wf(),
            0 <= y < self.height,
        ensures
            self.row(y).len() == self.width,
            forall|x: int| 0 <= x < self.width ==> #[trigger] self.row(y)[x] == self.at(x, y),
    {
        let w = self.width;
        let h = self.height;
        assert(0 <= y * w <= (y + 1) * w <= w * h && (y + 1) * w - y * w == w) by (nonlinear_arith)
            requires
                w > 0,
                0 <= y < h,
        ;
        assert forall|x: int| 0 <= x < w implies #[trigger] self.row(y)[x] == self.at(x, y) by {
            self.lemma_slot_inside(x, y);
        }
    }
}

/// Lines of one length, joined, are as long as all of them and the line feeds
/// between them.
pub proof fn lemma_join_len(lines: Seq<Seq<char>>, each: int)
    requires
        lines.len() > 0,
        forall|k: int| 0 <= k < lines.len() ==> (#[trigger] lines[k]).len() == each,
    ensures
        join_lines(lines).len() == lines.len() * each + lines.len() - 1,
    decreases lines.len(),
{
    if lines.len() > 1 {
        let front = lines.drop_last();
        lemma_join_len(front, each);
        assert(lines.len() * each == front.len() * each + each) by (nonlinear_arith)
            requires
                lines.len() == front.len() + 1,
        ;
    } else {
        assert(lines.len() * each == each) by (nonlinear_arith)
            requires
                lines.len() == 1,
        ;
    }
}

/// The glyph for a cell of the upper row above a cell of the lower row.
fn glyph_text(upper: bool, lower: bool) -> (text: &'static str)
    ensures
        text@ == seq![glyph(upper, lower)],
{
    proof {
        reveal_strlit("▄");
        reveal_strlit("▀");
        reveal_strlit("█");
        reveal_strlit(" ");
    }
    let text = match (upper, lower) {
        (false, true) => "▄",
        (true, false) => "▀",
        (true, true) => "█",
        _ => " ",
    };
    assert(text@ =~= seq![glyph(upper, lower)]);
    text
}

/// The edge line of a block that is `width` cells wide.
fn border_line(width: usize) -> (line: String)
    ensures
        line@ == border(width as int),
{
    proof {
        reveal_strlit("+");
        reveal_strlit("-");
    }
    let mut line = String::new();
    line.append("+");
    let mut i: usize = 0;
    while i < width
        invariant
            0 <= i <= width,
            "-"@ == seq!['-'],
            line@ == seq!['+'] + Seq::new(i as nat, |j: int| '-'),
        decreases width - i,
    {
        line.append("-");
        i += 1;
        assert(line@ =~= seq!['+'] + Seq::new(i as nat, |j: int| '-'));
    }
    line.append("+");
    assert(line@ =~= border(width as int));
    line
}

/// Get an ASCII-art representation of two rows, intended for use with `Grid::stringify`.
pub fn stringify_row_pair(up_row: &[bool], down_row: &[bool]) -> (line: String)
    ensures
        line@ == row_line(up_row@, down_row@),
{
    proof {
        reveal_strlit("|");
    }
    let columns = if up_row.len() <= down_row.len() {
        up_row.len()
    } else {
        down_row.len()
    };
    let mut line = String::new();
    line.append("|");
    let mut i: usize = 0;
    while i < columns
        invariant
            0 <= i <= columns,
            columns == shorter(up_row@.len(), down_row@.len()),
            line@ == seq!['|'] + Seq::new(i as nat, |j: int| glyph(up_row@[j], down_row@[j])),
        decreases columns - i,
    {
        line.append(glyph_text(up_row[i], down_row[i]));
        i += 1;
        assert(line@ =~= seq!['|'] + Seq::new(
            i as nat,
            |j: int| glyph(up_row@[j], down_row@[j]),
        ));
    }
    line.append("|");
    assert(line@ =~= row_line(up_row@, down_row@));
    line
}

impl Grid {
    /// Get an ASCII-art representation of the whole grid, with lines to indicate the edges.
    ///
    /// Note: the representation uses half the number of rows since two grid rows are rendered in
    /// each printed row.
    pub fn stringify(&self) -> (text: String)
        ensures
            text@ == self@.text(),
            text@.len() == (self@.height / 2 + 2) * (self@.width + 2) + self@.height / 2 + 1,
    {
        proof {
            use_type_invariant(self);
            reveal_strlit("\n");
            self@.lemma_lines_shape();
        }
        let ghost lines = self@.lines();
        let rows = self.iter_rows();
        let edge = border_line(self.width());
        let pairs = self.height() / 2;
        let mut text = String::new();
        text.append(edge.as_str());
        assert(text@ =~= join_lines(lines.take(1))) by {
            assert(lines.take(1).len() == 1);
            assert(lines.take(1)[0] == lines[0]);
        }
        let mut k: usize = 0;
        while k < pairs
            invariant
                0 <= k <= pairs,
                pairs == self@.height / 2,
                lines == self@.lines(),
                lines.len() == pairs + 2,
                "\n"@ == seq!['\n'],
                rows.len() == self@.height,
                forall|y: int| 0 <= y < self@.height ==> (#[trigger] rows[y])@ == self@.row(y),
                text@ == join_lines(lines.take(k + 1)),
            decreases pairs - k,
        {
            text.append("\n");
            let line = stringify_row_pair(rows[2 * k], rows[2 * k + 1]);
            text.append(line.as_str());
            proof {
                lemma_join_next(lines, k as int + 2);
                assert(lines[k as int + 1] == line@);
            }
            k += 1;
        }
        text.append("\n");
        text.append(edge.as_str());
        proof {
            lemma_join_next(lines, pairs as int + 2);
            assert(lines.take(pairs as int + 2) =~= lines);
        }
        text
    }
}

/// Joining one line more adds a line feed and that line.
proof fn lemma_join_next(lines: Seq<Seq<char>>, count: int)
    requires
        2 <= count <= lines.len(),
    ensures
        join_lines(lines.take(count)) == join_lines(lines.take(count - 1)) + seq!['\n'] + lines[count
            - 1],
{
    assert(lines.take(count).drop_last() =~= lines.take(count - 1));
}

} // verus!
