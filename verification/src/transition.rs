use vstd::prelude::*;
use vstd::slice::slice_subrange;

use crate::grid::ImageAnchor;
use crate::grid::StyledChar;
use crate::grid::TerminalGrid;
use crate::runs::lemma_merged_runs_maximal;
use crate::runs::lemma_merged_runs_styles;
use crate::runs::merge_runs;
use crate::runs::merged_runs;
use crate::runs::run_width;
use crate::runs::texts_view;
use crate::runs::Text;
use crate::runs::TextView;
use crate::style::Color;

verus! {

/// The playback direction of a transition: `Next` when advancing forward
/// through content, `Previous` when going back.
#[derive(Clone, Copy, PartialEq, Eq, Structural, Debug)]
pub enum TransitionDirection {
    Next,
    Previous,
}

/// The viewport: the visible terminal size in cell units.
#[derive(Clone, Copy, PartialEq, Eq, Structural, Debug)]
pub struct WindowSize {
    pub rows: u16,
    pub columns: u16,
}

/// One visible row of a frame, as the ordered runs that remain after
/// windowing and truncation.
#[derive(Clone, PartialEq, Debug)]
pub struct Line(pub Vec<Text>);

impl View for Line {
    type V = Seq<TextView>;

    open spec fn view(&self) -> Seq<TextView> {
        texts_view(self.0@)
    }
}

/// One rendered animation step: the visible lines, in row order, plus the
/// background they are painted over.
#[derive(Clone, PartialEq, Debug)]
pub struct LinesFrame {
    pub lines: Vec<Line>,
    pub background_color: Option<Color>,
}

/// The mathematical model of a frame.
#[verifier::ext_equal]
pub struct FrameView {
    pub lines: Seq<Seq<TextView>>,
    pub background: Option<Color>,
}

impl View for LinesFrame {
    type V = FrameView;

    open spec fn view(&self) -> FrameView {
        FrameView { lines: self.lines@.map_values(|l: Line| l@), background: self.background_color }
    }
}

/// The transition interface: a fixed geometry that yields a frame for every
/// tick and direction. Frames are pure reads; no call mutates the transition.
///
/// Beyond the two executable capabilities, every implementation owes two laws:
/// out-of-range ticks clamp to the last frame, and playing a tick backwards
/// shows the same frame as playing the mirrored tick forwards.
pub trait AnimateTransition: Sized {
    /// The invariant a transition's constructor establishes.
    spec fn inv(&self) -> bool;

    /// The model of `total_frames`.
    spec fn spec_total_frames(&self) -> nat;

    /// The model of `build_frame`.
    spec fn spec_frame(&self, frame: nat, direction: TransitionDirection) -> FrameView;

    /// The number of frames the transition takes from one state to the other.
    fn total_frames(&self) -> (n: usize)
        requires
            self.inv(),
        ensures
            n == self.spec_total_frames(),
    ;

    /// The frame shown at tick `frame` when playing in `direction`.
    fn build_frame(&self, frame: usize, direction: TransitionDirection) -> (f: LinesFrame)
        requires
            self.inv(),
        ensures
            f@ == self.spec_frame(frame as nat, direction),
    ;

    /// Law: a tick past the end is silently clamped, never an error.
    proof fn lemma_frame_clamps(&self, frame: nat, direction: TransitionDirection)
        requires
            self.inv(),
            frame > self.spec_total_frames(),
        ensures
            self.spec_frame(frame, direction) == self.spec_frame(
                self.spec_total_frames(),
                direction,
            ),
    ;

    /// Law: mirror symmetry. For every valid tick `frame`, playing `Previous`
    /// at `frame` shows the frame that `Next` shows at
    /// `total_frames() - frame`.
    proof fn lemma_mirror(&self, frame: nat)
        requires
            self.inv(),
            frame <= self.spec_total_frames(),
        ensures
            self.spec_frame(frame, TransitionDirection::Previous) == self.spec_frame(
                (self.spec_total_frames() - frame) as nat,
                TransitionDirection::Next,
            ),
    ;
}

/// The runs that fit a budget of `budget` display columns, walking the runs
/// left to right. A run that fits whole is kept and charged against the
/// budget. The first run that would overflow is cut to as many leading
/// characters as whole slots of its size remain — dropped outright when no
/// slot remains — and nothing further is kept: that run closes the line.
pub open spec fn clip_runs(runs: Seq<TextView>, budget: nat) -> Seq<TextView>
    decreases runs.len(),
{
    if runs.len() == 0 {
        Seq::empty()
    } else {
        let head = runs[0];
        let w = run_width(head);
        if w <= budget {
            seq![head] + clip_runs(runs.skip(1), (budget - w) as nat)
        } else {
            let slots = budget / (head.style.size as nat);
            let keep = if slots <= head.content.len() {
                slots
            } else {
                head.content.len()
            };
            if slots >= 1 {
                seq![TextView { content: head.content.take(keep as int), style: head.style }]
            } else {
                Seq::empty()
            }
        }
    }
}

/// The column slice of a row that a window starting at `start` and `columns`
/// wide shows. A window reaching past the row's end shows the row to its end.
pub open spec fn spec_window(row: Seq<StyledChar>, start: nat, columns: nat) -> Seq<StyledChar> {
    if start + columns <= row.len() {
        row.subrange(start as int, (start + columns) as int)
    } else if start <= row.len() {
        row.subrange(start as int, row.len() as int)
    } else {
        Seq::empty()
    }
}

/// One visible line: the window's cells merged into runs, then clipped to the
/// viewport's column budget.
pub open spec fn spec_line(row: Seq<StyledChar>, start: nat, columns: nat) -> Seq<TextView> {
    clip_runs(merged_runs(spec_window(row, start, columns)), columns)
}

/// Clips merged runs to a budget of `max_width` display columns, as
/// `clip_runs` describes.
fn clip_line(runs: Vec<Text>, max_width: usize) -> (line: Vec<Text>)
    requires
        forall|i: int| 0 <= i < runs@.len() ==> (#[trigger] runs@[i]).style.size >= 1,
        forall|i: int| 0 <= i < runs@.len() ==> (#[trigger] runs@[i]).content@.len() <= 0xFFFF,
    ensures
        texts_view(line@) == clip_runs(texts_view(runs@), max_width as nat),
{
    let ghost all = texts_view(runs@);
    let mut rest = runs;
    let mut line: Vec<Text> = Vec::new();
    let mut budget = max_width;
    let mut open_line = true;
    while rest.len() > 0 && open_line
        invariant
            forall|i: int| 0 <= i < rest@.len() ==> (#[trigger] rest@[i]).style.size >= 1,
            forall|i: int| 0 <= i < rest@.len() ==> (#[trigger] rest@[i]).content@.len() <= 0xFFFF,
            open_line ==> texts_view(line@) + clip_runs(texts_view(rest@), budget as nat)
                == clip_runs(all, max_width as nat),
            !open_line ==> texts_view(line@) == clip_runs(all, max_width as nat),
        decreases rest@.len(),
    {
        let ghost heads = texts_view(rest@);
        let ghost line_before = texts_view(line@);
        proof {
            assert(heads[0] == rest@[0]@);
            assert(rest@[0].content@.len() <= 0xFFFF);
            assert(rest@[0].style.size >= 1);
        }
        let mut t = rest.remove(0);
        proof {
            assert(texts_view(rest@) =~= heads.skip(1));
        }
        let w = t.content_width();
        let size = t.style.size as usize;
        proof {
            assert(t.content@.len() <= 0xFFFF);
            assert(w <= 3 * 0xFFFF);
            assert(w * size <= 196605 * 255) by (nonlinear_arith)
                requires
                    0 <= w <= 196605,
                    0 <= size <= 255,
            ;
        }
        let tw = w * size;
        proof {
            assert(tw == run_width(t@));
        }
        if tw <= budget {
            proof {
                assert(clip_runs(heads, budget as nat) == seq![t@] + clip_runs(
                    heads.skip(1),
                    (budget - tw) as nat,
                ));
            }
            budget -= tw;
            line.push(t);
            proof {
                assert(texts_view(line@) =~= line_before.push(heads[0]));
                assert(line_before.push(heads[0]) + clip_runs(texts_view(rest@), budget as nat)
                    =~= line_before + clip_runs(heads, (budget + tw) as nat));
            }
        } else {
            let slots = budget / size;
            if slots >= 1 {
                let keep = if slots < t.content.len() {
                    slots
                } else {
                    t.content.len()
                };
                t.truncate(keep);
                proof {
                    assert(clip_runs(heads, budget as nat) =~= seq![t@]);
                }
                line.push(t);
                proof {
                    assert(texts_view(line@) =~= line_before.push(clip_runs(
                        heads,
                        budget as nat,
                    )[0]));
                    assert(line_before.push(clip_runs(heads, budget as nat)[0]) =~= line_before
                        + clip_runs(heads, budget as nat));
                }
            } else {
                proof {
                    assert(clip_runs(heads, budget as nat) =~= Seq::<TextView>::empty());
                    assert(line_before + clip_runs(heads, budget as nat) =~= line_before);
                }
            }
            open_line = false;
        }
    }
    proof {
        if open_line {
            assert(texts_view(rest@) =~= Seq::<TextView>::empty());
            assert(clip_runs(texts_view(rest@), budget as nat) =~= Seq::<TextView>::empty());
            assert(texts_view(line@) + clip_runs(texts_view(rest@), budget as nat) =~= texts_view(
                line@,
            ));
        }
    }
    line
}

/// Law: a run whose full width exceeds the budget closes the line. It is cut
/// to the remaining whole-character slots of its size — dropped when no slot
/// remains — and no run after it is kept, whatever follows.
pub proof fn lemma_clip_overflow(runs: Seq<TextView>, budget: nat)
    requires
        runs.len() > 0,
        run_width(runs[0]) > budget,
    ensures
        clip_runs(runs, budget).len() <= 1,
        budget / (runs[0].style.size as nat) >= 1 ==> clip_runs(runs, budget) == seq![
            TextView {
                content: runs[0].content.take(
                    if budget / (runs[0].style.size as nat) <= runs[0].content.len() {
                        budget / (runs[0].style.size as nat)
                    } else {
                        runs[0].content.len()
                    } as int,
                ),
                style: runs[0].style,
            },
        ],
        budget / (runs[0].style.size as nat) == 0 ==> clip_runs(runs, budget) == Seq::<
            TextView,
        >::empty(),
{
}

/// Law: frame building is deterministic. A transition's frame is a function of
/// the tick and the direction alone, so two frames built with identical
/// arguments show the same lines over the same background.
pub proof fn lemma_frame_deterministic(
    transition: &SlideHorizontalAnimation,
    frame: nat,
    direction: TransitionDirection,
    first: LinesFrame,
    second: LinesFrame,
)
    requires
        first@ == transition.spec_frame_at(frame, direction),
        second@ == transition.spec_frame_at(frame, direction),
    ensures
        first@ == second@,
{
}

/// Concatenates two rows of cells.
fn concat_cells(left: &Vec<StyledChar>, right: &Vec<StyledChar>) -> (row: Vec<StyledChar>)
    ensures
        row@ == left@ + right@,
{
    let mut row: Vec<StyledChar> = Vec::new();
    let mut i: usize = 0;
    while i < left.len()
        invariant
            i <= left@.len(),
            row@ == left@.take(i as int),
        decreases left@.len() - i,
    {
        row.push(left[i]);
        proof {
            assert(row@ =~= left@.take(i + 1));
        }
        i += 1;
    }
    proof {
        assert(left@.take(left@.len() as int) =~= left@);
    }
    let mut j: usize = 0;
    while j < right.len()
        invariant
            j <= right@.len(),
            row@ == left@ + right@.take(j as int),
        decreases right@.len() - j,
    {
        row.push(right[j]);
        proof {
            assert(row@ =~= left@ + right@.take(j + 1));
        }
        j += 1;
    }
    proof {
        assert(left@ + right@.take(right@.len() as int) =~= left@ + right@);
    }
    row
}

/// A horizontal slide: the combined grid of the outgoing and incoming states,
/// windowed at a fixed viewport. Built once, read by every frame.
pub struct SlideHorizontalAnimation {
    pub grid: TerminalGrid,
    pub dimensions: WindowSize,
}

impl SlideHorizontalAnimation {
    /// The invariant `new` establishes: the combined grid is well formed.
    pub open spec fn wf(self) -> bool {
        self.grid.wf()
    }

    /// The number of frames: how far the window can slide, in columns.
    pub open spec fn spec_total(self) -> nat {
        if self.grid.width() >= self.dimensions.columns as nat {
            (self.grid.width() - self.dimensions.columns as nat) as nat
        } else {
            0
        }
    }

    /// The window's start column at tick `frame`: the tick is clamped to the
    /// frame count, and `Previous` mirrors it.
    pub open spec fn spec_start(self, frame: nat, direction: TransitionDirection) -> nat {
        let total = self.spec_total();
        let clamped = if frame <= total {
            frame
        } else {
            total
        };
        match direction {
            TransitionDirection::Next => clamped,
            TransitionDirection::Previous => (total - clamped) as nat,
        }
    }

    /// The frame at tick `frame`: every grid row windowed at the start column,
    /// merged into runs and clipped to the viewport's columns, over the
    /// combined grid's background.
    pub open spec fn spec_frame_at(self, frame: nat, direction: TransitionDirection) -> FrameView {
        FrameView {
            lines: Seq::new(
                self.grid.height(),
                |i: int|
                    spec_line(
                        self.grid.row(i),
                        self.spec_start(frame, direction),
                        self.dimensions.columns as nat,
                    ),
            ),
            background: self.grid.background_color,
        }
    }

    /// Whether two grids may be combined: equal row counts, equal column
    /// counts, one background. Violating this when constructing a slide is a
    /// caller bug, fatal at the call site, never a recoverable error.
    pub fn grids_compatible(left: &TerminalGrid, right: &TerminalGrid) -> (r: bool)
        ensures
            r == (left.height() == right.height() && left.width() == right.width()
                && left.background_color == right.background_color),
    {
        if left.rows.len() != right.rows.len() {
            return false;
        }
        let left_width = if left.rows.len() == 0 {
            0
        } else {
            left.rows[0].len()
        };
        let right_width = if right.rows.len() == 0 {
            0
        } else {
            right.rows[0].len()
        };
        left_width == right_width && left.background_color == right.background_color
    }

    /// Consumes two grids of matching geometry and background into the slide's
    /// combined grid: row `i` of the result is row `i` of `left` followed by
    /// row `i` of `right`, the background is the shared one, and no image
    /// anchor is carried through — the combined grid's image set is empty.
    pub fn new(left: TerminalGrid, right: TerminalGrid, dimensions: WindowSize) -> (t: Self)
        requires
            left.wf(),
            right.wf(),
            left.height() == right.height(),
            left.width() == right.width(),
            left.background_color == right.background_color,
            left.width() + right.width() <= usize::MAX,
        ensures
            t.wf(),
            t.dimensions == dimensions,
            t.grid.height() == left.height(),
            t.grid.width() == left.width() + right.width(),
            forall|i: int|
                0 <= i < left.height() ==> t.grid.row(i) == left.row(i) + right.row(i),
            t.grid.background_color == left.background_color,
            t.grid.images@ == Seq::<ImageAnchor>::empty(),
    {
        let height = left.rows.len();
        let mut rows: Vec<Vec<StyledChar>> = Vec::new();
        let mut i: usize = 0;
        while i < height
            invariant
                i <= height,
                height == left.rows@.len(),
                height == right.rows@.len(),
                rows@.len() == i,
                forall|k: int|
                    0 <= k < i ==> (#[trigger] rows@[k])@ == left.rows@[k]@ + right.rows@[k]@,
            decreases height - i,
        {
            let row = concat_cells(&left.rows[i], &right.rows[i]);
            rows.push(row);
            i += 1;
        }
        let grid = TerminalGrid {
            rows,
            background_color: left.background_color,
            images: Vec::new(),
        };
        proof {
            assert forall|k: int| 0 <= k < grid.rows@.len() implies (#[trigger] grid.rows@[k])@.len()
                == grid.width() by {
                assert(grid.rows@[k]@ == left.rows@[k]@ + right.rows@[k]@);
                if grid.rows@.len() > 0 {
                    assert(grid.rows@[0]@ == left.rows@[0]@ + right.rows@[0]@);
                }
            }
            assert forall|k: int, j: int|
                0 <= k < grid.rows@.len() && 0 <= j < grid.rows@[k]@.len() implies (
            #[trigger] grid.rows@[k]@[j]).style.wf() by {
                assert(grid.rows@[k]@ == left.rows@[k]@ + right.rows@[k]@);
                if j < left.rows@[k]@.len() {
                    assert(grid.rows@[k]@[j] == left.rows@[k]@[j]);
                } else {
                    assert(grid.rows@[k]@[j] == right.rows@[k]@[j - left.rows@[k]@.len()]);
                }
            }
            if grid.rows@.len() > 0 {
                assert(grid.width() == left.width() + right.width());
            }
        }
        SlideHorizontalAnimation { grid, dimensions }
    }
}

impl AnimateTransition for SlideHorizontalAnimation {
    open spec fn inv(&self) -> bool {
        self.wf()
    }

    open spec fn spec_total_frames(&self) -> nat {
        self.spec_total()
    }

    open spec fn spec_frame(&self, frame: nat, direction: TransitionDirection) -> FrameView {
        self.spec_frame_at(frame, direction)
    }

    fn total_frames(&self) -> (n: usize) {
        if self.grid.rows.len() == 0 {
            0
        } else {
            let width = self.grid.rows[0].len();
            let columns = self.dimensions.columns as usize;
            if width > columns {
                width - columns
            } else {
                0
            }
        }
    }

    fn build_frame(&self, frame: usize, direction: TransitionDirection) -> (f: LinesFrame) {
        let total = self.total_frames();
        let clamped = if frame < total {
            frame
        } else {
            total
        };
        let index = match direction {
            TransitionDirection::Next => clamped,
            TransitionDirection::Previous => total - clamped,
        };
        proof {
            assert(index as nat == self.spec_start(frame as nat, direction));
        }
        let columns = self.dimensions.columns as usize;
        let height = self.grid.rows.len();
        let mut lines: Vec<Line> = Vec::new();
        let mut r: usize = 0;
        while r < height
            invariant
                r <= height,
                height == self.grid.rows@.len(),
                self.wf(),
                columns == self.dimensions.columns as nat,
                index as nat <= self.grid.width(),
                index + columns <= self.grid.width() || (index == 0 && self.grid.width()
                    < columns),
                lines@.len() == r,
                forall|k: int|
                    0 <= k < r ==> (#[trigger] lines@[k])@ == spec_line(
                        self.grid.row(k),
                        index as nat,
                        columns as nat,
                    ),
            decreases height - r,
        {
            let row = &self.grid.rows[r];
            proof {
                assert(row@.len() == self.grid.width());
            }
            let end = if columns <= row.len() - index {
                index + columns
            } else {
                row.len()
            };
            let window = slice_subrange(row.as_slice(), index, end);
            proof {
                assert(window@ == spec_window(row@, index as nat, columns as nat));
                assert(window@.len() <= columns);
            }
            let merged = merge_runs(window);
            proof {
                lemma_merged_runs_maximal(window@);
                lemma_merged_runs_styles(window@);
                assert forall|k: int| 0 <= k < merged@.len() implies (#[trigger] merged@[k]).style.size
                    >= 1 by {
                    assert(texts_view(merged@)[k] == merged@[k]@);
                    let j = choose|j: int|
                        0 <= j < window@.len() && merged_runs(window@)[k].style
                            == window@[j].style;
                    assert(window@[j] == row@[index + j]);
                    assert(row@[index + j].style.wf());
                }
                assert forall|k: int| 0 <= k < merged@.len() implies (
                #[trigger] merged@[k]).content@.len() <= 0xFFFF by {
                    assert(texts_view(merged@)[k] == merged@[k]@);
                    assert(merged_runs(window@)[k].content.len() <= window@.len());
                }
            }
            let clipped = clip_line(merged, columns);
            let line = Line(clipped);
            proof {
                assert(line@ == spec_line(row@, index as nat, columns as nat));
            }
            lines.push(line);
            r += 1;
        }
        let f = LinesFrame { lines, background_color: self.grid.background_color };
        proof {
            assert(f@.lines =~= self.spec_frame_at(frame as nat, direction).lines);
        }
        f
    }

    proof fn lemma_frame_clamps(&self, frame: nat, direction: TransitionDirection) {
        assert(self.spec_start(frame, direction) == self.spec_start(
            self.spec_total(),
            direction,
        ));
        assert(self.spec_frame_at(frame, direction).lines =~= self.spec_frame_at(
            self.spec_total(),
            direction,
        ).lines);
    }

    proof fn lemma_mirror(&self, frame: nat) {
        assert(self.spec_start(frame, TransitionDirection::Previous) == self.spec_start(
            (self.spec_total() - frame) as nat,
            TransitionDirection::Next,
        ));
        assert(self.spec_frame_at(frame, TransitionDirection::Previous).lines
            =~= self.spec_frame_at(
            (self.spec_total() - frame) as nat,
            TransitionDirection::Next,
        ).lines);
    }
}

} // verus!
