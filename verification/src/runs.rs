use vstd::prelude::*;

use crate::grid::StyledChar;
use crate::style::TextStyle;

verus! {

/// A run: a piece of one row whose cells all share one style.
#[derive(Clone, PartialEq, Debug)]
pub struct Text {
    pub content: Vec<char>,
    pub style: TextStyle,
}

/// The mathematical model of a run.
#[verifier::ext_equal]
pub struct TextView {
    pub content: Seq<char>,
    pub style: TextStyle,
}

impl View for Text {
    type V = TextView;

    open spec fn view(&self) -> TextView {
        TextView { content: self.content@, style: self.style }
    }
}

/// The sequence of models of a sequence of runs.
pub open spec fn texts_view(ts: Seq<Text>) -> Seq<TextView> {
    ts.map_values(|t: Text| t@)
}

/// The displayed column width of one character. What it is for a given
/// character only the character-width tables say; this crate never states it.
pub uninterp spec fn char_width_of(c: char) -> nat;

/// Relies on `unicode_width::UnicodeWidthChar::width`: the displayed column
/// width of one character, a function of the character alone. Control
/// characters have no width there and count zero columns here. A single
/// character is at most three columns wide: the crate's tables store two-bit
/// widths, with one width-three special case.
#[verifier::external_body]
fn char_display_width(c: char) -> (w: usize)
    ensures
        w == char_width_of(c),
        w <= 3,
{
    unicode_width::UnicodeWidthChar::width(c).unwrap_or(0)
}

/// The displayed width of a sequence of characters: the sum of the widths of
/// its characters.
pub open spec fn seq_width(s: Seq<char>) -> nat
    decreases s.len(),
{
    if s.len() == 0 {
        0
    } else {
        seq_width(s.drop_last()) + char_width_of(s.last())
    }
}

/// The displayed width of a run: its characters' total width, multiplied by
/// the style's size.
pub open spec fn run_width(t: TextView) -> nat {
    (seq_width(t.content) * t.style.size) as nat
}

impl Text {
    /// Truncates this run to its first `count` characters.
    pub fn truncate(&mut self, count: usize)
        requires
            count <= old(self).content@.len(),
        ensures
            final(self).content@ == old(self).content@.take(count as int),
            final(self).style == old(self).style,
    {
        self.content.truncate(count);
    }

    /// The displayed width of this run's characters, before the size
    /// multiplier is applied.
    pub fn content_width(&self) -> (w: usize)
        requires
            3 * self.content@.len() <= usize::MAX,
        ensures
            w == seq_width(self.content@),
            w <= 3 * self.content@.len(),
    {
        let n = self.content.len();
        let mut w: usize = 0;
        let mut i: usize = 0;
        while i < n
            invariant
                i <= n,
                n == self.content@.len(),
                3 * n <= usize::MAX,
                w == seq_width(self.content@.take(i as int)),
                w <= 3 * i,
            decreases n - i,
        {
            let cw = char_display_width(self.content[i]);
            proof {
                let taken = self.content@.take(i + 1);
                assert(taken.drop_last() =~= self.content@.take(i as int));
                assert(taken.last() == self.content@[i as int]);
            }
            w = w + cw;
            i += 1;
        }
        proof {
            assert(self.content@.take(n as int) =~= self.content@);
        }
        w
    }
}

/// The runs of a row: the row's characters, split exactly where adjacent
/// cells differ in style. Defined by folding the row's cells in from the left:
/// a cell styled like the run before it joins that run, any other cell opens a
/// new one.
pub open spec fn merged_runs(row: Seq<StyledChar>) -> Seq<TextView>
    decreases row.len(),
{
    if row.len() == 0 {
        Seq::empty()
    } else {
        let rest = merged_runs(row.drop_last());
        let cell = row.last();
        if rest.len() > 0 && rest.last().style == cell.style {
            rest.update(
                rest.len() - 1,
                TextView { content: rest.last().content.push(cell.character), style: cell.style },
            )
        } else {
            rest.push(TextView { content: seq![cell.character], style: cell.style })
        }
    }
}

/// A sequence of characters as cells, each under the one given style.
pub open spec fn chars_as_cells(content: Seq<char>, style: TextStyle) -> Seq<StyledChar>
    decreases content.len(),
{
    if content.len() == 0 {
        Seq::empty()
    } else {
        chars_as_cells(content.drop_last(), style).push(
            StyledChar { character: content.last(), style },
        )
    }
}

/// The cells a run stands for: its characters, each under the run's style.
pub open spec fn run_cells(t: TextView) -> Seq<StyledChar> {
    chars_as_cells(t.content, t.style)
}

/// The cells a sequence of runs stands for, in order.
pub open spec fn runs_cells(runs: Seq<TextView>) -> Seq<StyledChar>
    decreases runs.len(),
{
    if runs.len() == 0 {
        Seq::empty()
    } else {
        runs_cells(runs.drop_last()) + run_cells(runs.last())
    }
}

/// Law: merging loses nothing and invents nothing. Reading the merged runs
/// back — each run's characters under that run's style — gives the row again,
/// cell for cell.
pub proof fn lemma_merged_runs_reconstruct(row: Seq<StyledChar>)
    ensures
        runs_cells(merged_runs(row)) == row,
    decreases row.len(),
{
    if row.len() == 0 {
        assert(runs_cells(merged_runs(row)) =~= row);
    } else {
        let prefix = row.drop_last();
        let cell = row.last();
        let rest = merged_runs(prefix);
        lemma_merged_runs_reconstruct(prefix);
        let runs = merged_runs(row);
        if rest.len() > 0 && rest.last().style == cell.style {
            let grown = TextView {
                content: rest.last().content.push(cell.character),
                style: cell.style,
            };
            assert(runs == rest.update(rest.len() - 1, grown));
            assert(runs.drop_last() =~= rest.drop_last());
            assert(runs.last() == grown);
            assert(grown.content.drop_last() =~= rest.last().content);
            assert(run_cells(grown) == run_cells(rest.last()).push(cell));
            assert(runs_cells(runs) == runs_cells(rest.drop_last()) + run_cells(grown));
            assert(runs_cells(rest.drop_last()) + run_cells(grown) =~= (runs_cells(
                rest.drop_last(),
            ) + run_cells(rest.last())).push(cell));
            assert(runs_cells(runs) =~= row);
        } else {
            let fresh = TextView { content: seq![cell.character], style: cell.style };
            assert(runs == rest.push(fresh));
            assert(runs.drop_last() =~= rest);
            assert(runs.last() == fresh);
            assert(fresh.content.drop_last() =~= Seq::<char>::empty());
            assert(chars_as_cells(Seq::<char>::empty(), cell.style) == Seq::<StyledChar>::empty());
            assert(fresh.content.last() == cell.character);
            assert(StyledChar { character: cell.character, style: cell.style } == cell);
            assert(run_cells(fresh) =~= seq![cell]);
            assert(runs_cells(runs) == runs_cells(rest) + run_cells(fresh));
            assert(prefix + seq![cell] =~= row);
            assert(runs_cells(runs) == row);
        }
    }
}

/// Law: the merge is maximal. Every run holds at least one character, no two
/// adjacent runs share a style — so a run boundary sits exactly where adjacent
/// cells differ — and no run is longer than the row it came from.
pub proof fn lemma_merged_runs_maximal(row: Seq<StyledChar>)
    ensures
        forall|i: int|
            0 <= i < merged_runs(row).len() ==> 1 <= (#[trigger] merged_runs(
                row,
            )[i]).content.len() <= row.len(),
        forall|i: int|
            0 <= i < merged_runs(row).len() - 1 ==> (#[trigger] merged_runs(row)[i]).style
                != merged_runs(row)[i + 1].style,
    decreases row.len(),
{
    if row.len() > 0 {
        let prefix = row.drop_last();
        let cell = row.last();
        let rest = merged_runs(prefix);
        lemma_merged_runs_maximal(prefix);
    }
}

/// Law: every merged run wears the style of some cell of the row.
pub proof fn lemma_merged_runs_styles(row: Seq<StyledChar>)
    ensures
        forall|i: int|
            0 <= i < merged_runs(row).len() ==> exists|j: int|
                0 <= j < row.len() && (#[trigger] merged_runs(row)[i]).style == row[j].style,
    decreases row.len(),
{
    if row.len() > 0 {
        let prefix = row.drop_last();
        let rest = merged_runs(prefix);
        lemma_merged_runs_styles(prefix);
        assert forall|i: int| 0 <= i < merged_runs(row).len() implies exists|j: int|
            0 <= j < row.len() && (#[trigger] merged_runs(row)[i]).style == row[j].style by {
            if i < rest.len() && merged_runs(row)[i].style == rest[i].style {
                let j = choose|j: int| 0 <= j < prefix.len() && rest[i].style == prefix[j].style;
                assert(row[j].style == merged_runs(row)[i].style);
            } else {
                assert(merged_runs(row)[i].style == row[row.len() - 1].style);
            }
        }
    }
}

/// Merges a row of cells into runs: one run per maximal stretch of cells that
/// share a style, in column order. An empty row yields no runs.
pub fn merge_runs(row: &[StyledChar]) -> (runs: Vec<Text>)
    ensures
        texts_view(runs@) == merged_runs(row@),
{
    let n = row.len();
    let mut runs: Vec<Text> = Vec::new();
    let mut i: usize = 0;
    while i < n
        invariant
            i <= n,
            n == row@.len(),
            texts_view(runs@) == merged_runs(row@.take(i as int)),
        decreases n - i,
    {
        let cell = row[i];
        let len = runs.len();
        proof {
            let taken = row@.take(i + 1);
            assert(taken.drop_last() =~= row@.take(i as int));
            assert(taken.last() == row@[i as int]);
            assert(merged_runs(row@.take(i as int)).len() == runs@.len());
        }
        if len > 0 && runs[len - 1].style == cell.style {
            let mut last = runs.pop().unwrap();
            last.content.push(cell.character);
            runs.push(last);
            proof {
                assert(texts_view(runs@) =~= merged_runs(row@.take(i + 1)));
            }
        } else {
            let mut content: Vec<char> = Vec::new();
            content.push(cell.character);
            runs.push(Text { content, style: cell.style });
            proof {
                assert(texts_view(runs@) =~= merged_runs(row@.take(i + 1)));
            }
        }
        i += 1;
    }
    proof {
        assert(row@.take(n as int) =~= row@);
    }
    runs
}

} // verus!

