//! Canvas layout and compositing.
//!
//! The planner partitions an ordered sequence of sprites into rows whose
//! accumulated width stays within a bounded terminal width, and computes the
//! dimensions of the canvas that holds them.  The compositor allocates a
//! transparent canvas of those dimensions and blits each sprite at its
//! computed position, bottom-aligned within its row.

use vstd::prelude::*;

verus! {

/// Spacing, in pixels, between sprites in a row and between rows.
pub const SPRITE_SPACING: u32 = 1;

/// The smallest terminal width the planner will work with; narrower or
/// unknown terminals are treated as being this wide.
pub const MIN_TERMINAL_WIDTH: u32 = 40;

/// An immutable rectangular pixel buffer.  Pixels are packed RGBA values in
/// row-major order; `0` is fully transparent.
#[derive(Clone)]
pub struct Sprite {
    pub width: u32,
    pub height: u32,
    pub pixels: Vec<u32>,
}

impl Sprite {
    /// The buffer holds exactly one pixel per cell of the rectangle.
    pub open spec fn wf(self) -> bool {
        self.pixels@.len() == self.width * self.height
    }
}

/// Width and height of the composited canvas.
pub struct CanvasDimensions {
    pub width: u32,
    pub height: u32,
}

/// Row assignment: each row is the list of indices into the input sprite
/// sequence that share one horizontal strip of the canvas.
pub struct SpriteLayout {
    pub rows: Vec<Vec<usize>>,
}

impl View for SpriteLayout {
    type V = Seq<Seq<usize>>;

    open spec fn view(&self) -> Seq<Seq<usize>> {
        self.rows@.map_values(|r: Vec<usize>| r@)
    }
}

/// The composited raster: a row-major pixel buffer of the planned dimensions.
pub struct Canvas {
    pub width: u32,
    pub height: u32,
    pub pixels: Vec<u32>,
}

impl Canvas {
    pub open spec fn wf(self) -> bool {
        self.pixels@.len() == self.width * self.height
    }
}

/// Errors of the layout and compositing pass.
#[derive(Debug, PartialEq, Eq, Structural)]
pub enum SpriteError {
    /// A sprite's buffer does not match its declared dimensions, so its
    /// pixels cannot be copied.
    CopyFailed { index: usize },
    /// No sprites were supplied.
    EmptyInput,
    /// The resolved terminal width is below the configured minimum.
    TerminalTooNarrow,
    /// A computed placement would exceed the canvas bounds.
    PositionOutOfBounds {
        x: u32,
        y: u32,
        width: u32,
        height: u32,
        canvas_width: u32,
        canvas_height: u32,
    },
}

/// Width a row occupies: the widths of its sprites plus `spacing` between
/// each consecutive pair.
pub open spec fn row_width(sprites: Seq<Sprite>, row: Seq<usize>, spacing: u32) -> int
    decreases row.len(),
{
    if row.len() == 0 {
        0
    } else if row.len() == 1 {
        sprites[row[0] as int].width as int
    } else {
        row_width(sprites, row.drop_last(), spacing) + spacing + sprites[row.last() as int].width
    }
}

/// Height of a row: the tallest sprite in it.
pub open spec fn row_height(sprites: Seq<Sprite>, row: Seq<usize>) -> int
    decreases row.len(),
{
    if row.len() == 0 {
        0
    } else {
        let rest = row_height(sprites, row.drop_last());
        let last = sprites[row.last() as int].height as int;
        if last > rest {
            last
        } else {
            rest
        }
    }
}

/// Sum of the widths of all sprites.
pub open spec fn total_width(sprites: Seq<Sprite>) -> int
    decreases sprites.len(),
{
    if sprites.len() == 0 {
        0
    } else {
        total_width(sprites.drop_last()) + sprites.last().width
    }
}

/// Sum of the heights of all sprites.
pub open spec fn total_height(sprites: Seq<Sprite>) -> int
    decreases sprites.len(),
{
    if sprites.len() == 0 {
        0
    } else {
        total_height(sprites.drop_last()) + sprites.last().height
    }
}

/// Sum of the heights of the given rows.
pub open spec fn rows_height_sum(sprites: Seq<Sprite>, rows: Seq<Seq<usize>>) -> int
    decreases rows.len(),
{
    if rows.len() == 0 {
        0
    } else {
        rows_height_sum(sprites, rows.drop_last()) + row_height(sprites, rows.last())
    }
}

/// The widest of the given rows (0 if there are none).
pub open spec fn max_row_width(sprites: Seq<Sprite>, rows: Seq<Seq<usize>>, spacing: u32) -> int
    decreases rows.len(),
{
    if rows.len() == 0 {
        0
    } else {
        let rest = max_row_width(sprites, rows.drop_last(), spacing);
        let last = row_width(sprites, rows.last(), spacing);
        if last > rest {
            last
        } else {
            rest
        }
    }
}

/// Running state of the greedy left-to-right wrapping pass: the rows closed
/// so far, the row being filled, its accumulated width, and the widest
/// closed row.
pub struct PlanState {
    pub rows: Seq<Seq<usize>>,
    pub cur: Seq<usize>,
    pub cur_w: int,
    pub max_w: int,
}

/// One step of the greedy pass: sprite `i` either opens a new row (when the
/// current row is non-empty and appending would exceed `limit`) or joins the
/// current row.
pub open spec fn plan_step(
    sprites: Seq<Sprite>,
    limit: int,
    spacing: u32,
    st: PlanState,
    i: int,
) -> PlanState {
    let w = sprites[i].width as int;
    let needed = if st.cur.len() == 0 {
        w
    } else {
        st.cur_w + spacing + w
    };
    if needed > limit && st.cur.len() > 0 {
        PlanState {
            rows: st.rows.push(st.cur),
            cur: seq![i as usize],
            cur_w: w,
            max_w: if st.cur_w > st.max_w {
                st.cur_w
            } else {
                st.max_w
            },
        }
    } else {
        PlanState { rows: st.rows, cur: st.cur.push(i as usize), cur_w: needed, max_w: st.max_w }
    }
}

/// State of the greedy pass after the first `i` sprites.
pub open spec fn plan_state(sprites: Seq<Sprite>, limit: int, spacing: u32, i: int) -> PlanState
    decreases i,
{
    if i <= 0 {
        PlanState { rows: Seq::empty(), cur: Seq::empty(), cur_w: 0, max_w: 0 }
    } else {
        plan_step(sprites, limit, spacing, plan_state(sprites, limit, spacing, i - 1), i - 1)
    }
}

/// The rows the greedy pass assigns: the closed rows, plus the last row if
/// it is non-empty.
pub open spec fn plan_rows(sprites: Seq<Sprite>, limit: int, spacing: u32) -> Seq<Seq<usize>> {
    let st = plan_state(sprites, limit, spacing, sprites.len() as int);
    if st.cur.len() > 0 {
        st.rows.push(st.cur)
    } else {
        st.rows
    }
}

/// The widest row the greedy pass produces.
pub open spec fn plan_max_width(sprites: Seq<Sprite>, limit: int, spacing: u32) -> int {
    let st = plan_state(sprites, limit, spacing, sprites.len() as int);
    if st.cur.len() > 0 && st.cur_w > st.max_w {
        st.cur_w
    } else {
        st.max_w
    }
}

/// The terminal width the planner actually uses: the given width raised to
/// the configured minimum.
pub open spec fn clamped_width(terminal_width: u32) -> int {
    if terminal_width < MIN_TERMINAL_WIDTH {
        MIN_TERMINAL_WIDTH as int
    } else {
        terminal_width as int
    }
}

/// Canvas width for a set of rows: the widest row, floored at 1.
pub open spec fn spec_canvas_width(sprites: Seq<Sprite>, rows: Seq<Seq<usize>>, spacing: u32) -> int {
    let m = max_row_width(sprites, rows, spacing);
    if m < 1 {
        1
    } else {
        m
    }
}

/// Canvas height for a set of rows: the sum of the row heights plus
/// `spacing` between consecutive rows, floored at 1.
pub open spec fn spec_canvas_height(sprites: Seq<Sprite>, rows: Seq<Seq<usize>>, spacing: u32) -> int {
    if rows.len() == 0 {
        1
    } else {
        let h = rows_height_sum(sprites, rows) + spacing * (rows.len() - 1);
        if h < 1 {
            1
        } else {
            h
        }
    }
}

/// Appending a sprite to a row widens it by the sprite's width, plus the
/// spacing when the row was not empty.
proof fn lemma_row_width_push(sprites: Seq<Sprite>, row: Seq<usize>, spacing: u32, e: usize)
    ensures
        row_width(sprites, row.push(e), spacing) == if row.len() == 0 {
            sprites[e as int].width as int
        } else {
            row_width(sprites, row, spacing) + spacing + sprites[e as int].width
        },
{
    let p = row.push(e);
    assert(p.drop_last() =~= row);
    assert(p.last() == e);
    if row.len() == 0 {
        assert(p.len() == 1);
    }
}

/// Appending a sprite to a row raises the row's height to the sprite's
/// height when the sprite is taller.
proof fn lemma_row_height_push(sprites: Seq<Sprite>, row: Seq<usize>, e: usize)
    ensures
        row_height(sprites, row.push(e)) == ({
            let rest = row_height(sprites, row);
            let last = sprites[e as int].height as int;
            if last > rest {
                last
            } else {
                rest
            }
        }),
{
    let p = row.push(e);
    assert(p.drop_last() =~= row);
    assert(p.last() == e);
}

proof fn lemma_max_row_width_push(
    sprites: Seq<Sprite>,
    rows: Seq<Seq<usize>>,
    spacing: u32,
    r: Seq<usize>,
)
    ensures
        max_row_width(sprites, rows.push(r), spacing) == ({
            let rest = max_row_width(sprites, rows, spacing);
            let last = row_width(sprites, r, spacing);
            if last > rest {
                last
            } else {
                rest
            }
        }),
{
    let p = rows.push(r);
    assert(p.drop_last() =~= rows);
    assert(p.last() == r);
}

proof fn lemma_rows_height_sum_push(
    sprites: Seq<Sprite>,
    rows: Seq<Seq<usize>>,
    r: Seq<usize>,
)
    ensures
        rows_height_sum(sprites, rows.push(r)) == rows_height_sum(sprites, rows) + row_height(
            sprites,
            r,
        ),
{
    let p = rows.push(r);
    assert(p.drop_last() =~= rows);
    assert(p.last() == r);
}

/// A row is at least as wide as it is long would suggest: its width is
/// non-negative, and positive as soon as it holds a sprite of positive
/// width.
proof fn lemma_row_width_nonneg(sprites: Seq<Sprite>, row: Seq<usize>, spacing: u32)
    ensures
        row_width(sprites, row, spacing) >= 0,
    decreases row.len(),
{
    if row.len() > 1 {
        lemma_row_width_nonneg(sprites, row.drop_last(), spacing);
    }
}

proof fn lemma_row_height_nonneg(sprites: Seq<Sprite>, row: Seq<usize>)
    ensures
        row_height(sprites, row) >= 0,
    decreases row.len(),
{
    if row.len() > 0 {
        lemma_row_height_nonneg(sprites, row.drop_last());
    }
}

/// Every sprite in a row is at most as tall as the row.
proof fn lemma_row_height_member(sprites: Seq<Sprite>, row: Seq<usize>, k: int)
    requires
        0 <= k < row.len(),
    ensures
        sprites[row[k] as int].height as int <= row_height(sprites, row),
    decreases row.len(),
{
    if k < row.len() - 1 {
        assert(row.drop_last()[k] == row[k]);
        lemma_row_height_member(sprites, row.drop_last(), k);
    }
}

/// One step of `total_width` over a growing prefix.
proof fn lemma_total_width_take_step(sprites: Seq<Sprite>, i: int)
    requires
        0 <= i < sprites.len(),
    ensures
        total_width(sprites.take(i + 1)) == total_width(sprites.take(i)) + sprites[i].width,
{
    let t = sprites.take(i + 1);
    assert(t.drop_last() =~= sprites.take(i));
    assert(t.last() == sprites[i]);
}

proof fn lemma_total_height_take_step(sprites: Seq<Sprite>, i: int)
    requires
        0 <= i < sprites.len(),
    ensures
        total_height(sprites.take(i + 1)) == total_height(sprites.take(i)) + sprites[i].height,
{
    let t = sprites.take(i + 1);
    assert(t.drop_last() =~= sprites.take(i));
    assert(t.last() == sprites[i]);
}

/// Everything the greedy pass maintains after its first `i` steps: the
/// current width accumulator is the current row's width; the rows cover the
/// indices `0 .. i` in order; closed rows are non-empty and exceed the limit
/// only when they hold a single sprite; the maximum tracker is the widest
/// closed row; and widths and heights stay within the running totals.
pub open spec fn plan_state_inv(
    sprites: Seq<Sprite>,
    limit: int,
    spacing: u32,
    i: int,
    st: PlanState,
) -> bool {
    &&& st.cur_w == row_width(sprites, st.cur, spacing)
    &&& st.rows.flatten() + st.cur =~= Seq::new(
        i as nat,
        |k: int| k as usize,
    )
    &&& forall|j: int| 0 <= j < st.rows.len() ==> (#[trigger] st.rows[j]).len() >= 1
    &&& forall|j: int, k: int|
        0 <= j < st.rows.len() && 0 <= k < st.rows[j].len() ==> (#[trigger] st.rows[j][k] as int)
            < i
    &&& forall|k: int| 0 <= k < st.cur.len() ==> (#[trigger] st.cur[k] as int) < i
    &&& forall|j: int|
        0 <= j < st.rows.len() && row_width(sprites, #[trigger] st.rows[j], spacing) > limit
            ==> st.rows[j].len() == 1
    &&& (st.cur.len() > 0 && st.cur_w > limit ==> st.cur.len() == 1)
    &&& st.max_w == max_row_width(sprites, st.rows, spacing)
    &&& st.cur_w >= 0
    &&& st.max_w >= 0
    &&& st.cur_w <= total_width(sprites.take(i)) + spacing * (if i >= 1 {
        i - 1
    } else {
        0
    })
    &&& st.max_w <= total_width(sprites.take(i)) + spacing * (if i >= 1 {
        i - 1
    } else {
        0
    })
    &&& rows_height_sum(sprites, st.rows) + row_height(sprites, st.cur) <= total_height(
        sprites.take(i),
    )
    &&& st.rows.len() + (if st.cur.len() > 0 {
        1int
    } else {
        0int
    }) <= i
}

/// The greedy pass maintains `plan_state_inv` at every step.
pub proof fn lemma_plan_state_inv(sprites: Seq<Sprite>, limit: int, spacing: u32, i: int)
    requires
        0 <= i <= sprites.len(),
        sprites.len() <= usize::MAX,
        limit >= 0,
    ensures
        plan_state_inv(sprites, limit, spacing, i, plan_state(sprites, limit, spacing, i)),
    decreases i,
{
    if i == 0 {
        let st = plan_state(sprites, limit, spacing, 0);
        assert(st.rows.flatten() + st.cur =~= Seq::new(
            0,
            |k: int| k as usize,
        ));
    } else {
        lemma_plan_state_inv(sprites, limit, spacing, i - 1);
        let st = plan_state(sprites, limit, spacing, i - 1);
        let st2 = plan_state(sprites, limit, spacing, i);
        let w = sprites[i - 1].width as int;
        let needed = if st.cur.len() == 0 {
            w
        } else {
            st.cur_w + spacing + w
        };
        lemma_total_width_take_step(sprites, i - 1);
        lemma_total_height_take_step(sprites, i - 1);
        if i >= 2 {
            assert(spacing * (i - 1) == spacing * (i - 2) + spacing) by (nonlinear_arith);
            assert(spacing * (i - 1) >= spacing * (i - 2)) by (nonlinear_arith);
        }
        lemma_row_width_nonneg(sprites, st.cur, spacing);
        lemma_row_height_nonneg(sprites, st.cur);
        let ids = st.rows;
        if needed > limit && st.cur.len() > 0 {
            // sprite i-1 opens a new row
            lemma_max_row_width_push(sprites, st.rows, spacing, st.cur);
            lemma_rows_height_sum_push(sprites, st.rows, st.cur);
            lemma_row_height_nonneg(sprites, st2.cur);
            assert(st2.cur[0] == (i - 1) as usize);
            assert(((i - 1) as usize) as int == i - 1);
            assert(row_width(sprites, st2.cur, spacing) == w);
            assert(row_height(sprites, st2.cur) == sprites[i - 1].height as int) by {
                assert(st2.cur.drop_last() =~= Seq::<usize>::empty());
                assert(row_height(sprites, Seq::<usize>::empty()) == 0);
                assert(st2.cur.last() == (i - 1) as usize);
            }
            let ids2 = st2.rows;
            assert(ids2 =~= ids.push(st.cur));
            ids.lemma_flatten_push(st.cur);
            assert(ids2.flatten() + st2.cur =~= Seq::new(i as nat, |k: int| k as usize)) by {
                assert(ids2.flatten() =~= ids.flatten() + st.cur);
                assert(st2.cur =~= seq![(i - 1) as usize]);
            }
            assert forall|j: int| 0 <= j < st2.rows.len() implies (#[trigger] st2.rows[j]).len()
                >= 1 by {
                if j < st.rows.len() {
                    assert(st2.rows[j] == st.rows[j]);
                }
            }
        } else {
            // sprite i-1 joins the current row
            lemma_row_width_push(sprites, st.cur, spacing, (i - 1) as usize);
            lemma_row_height_push(sprites, st.cur, (i - 1) as usize);
            let ids2 = st2.rows;
            assert(ids2 =~= ids);
            assert(ids2.flatten() + st2.cur =~= Seq::new(i as nat, |k: int| k as usize)) by {
                assert(st2.cur =~= st.cur.push((i - 1) as usize));
                assert((ids.flatten() + st.cur).push((i - 1) as usize) =~= ids.flatten() + st.cur.push(
                    (i - 1) as usize,
                ));
                assert(Seq::new((i - 1) as nat, |k: int| k as usize).push((i - 1) as usize)
                    =~= Seq::new(i as nat, |k: int| k as usize));
            }
            if st.cur.len() == 0 {
                assert(st2.cur.len() == 1);
            } else {
                assert(needed <= limit);
            }
        }
    }
}

/// A prefix of the input weighs no more than the whole input.
proof fn lemma_total_width_take_le(sprites: Seq<Sprite>, i: int)
    requires
        0 <= i <= sprites.len(),
    ensures
        total_width(sprites.take(i)) <= total_width(sprites),
    decreases sprites.len() - i,
{
    if i == sprites.len() {
        assert(sprites.take(i) =~= sprites);
    } else {
        lemma_total_width_take_step(sprites, i);
        lemma_total_width_take_le(sprites, i + 1);
    }
}

proof fn lemma_total_height_take_le(sprites: Seq<Sprite>, i: int)
    requires
        0 <= i <= sprites.len(),
    ensures
        total_height(sprites.take(i)) <= total_height(sprites),
    decreases sprites.len() - i,
{
    if i == sprites.len() {
        assert(sprites.take(i) =~= sprites);
    } else {
        lemma_total_height_take_step(sprites, i);
        lemma_total_height_take_le(sprites, i + 1);
    }
}

/// The layout covers every input index exactly once, in the original order:
/// reading the rows left to right, top to bottom gives `0, 1, ..., n-1`.
pub proof fn lemma_plan_partition(sprites: Seq<Sprite>, limit: int, spacing: u32)
    requires
        sprites.len() <= usize::MAX,
        limit >= 0,
    ensures
        plan_rows(sprites, limit, spacing).flatten() =~= Seq::new(
            sprites.len(),
            |k: int| k as usize,
        ),
{
    let n = sprites.len() as int;
    lemma_plan_state_inv(sprites, limit, spacing, n);
    let st = plan_state(sprites, limit, spacing, n);
    assert(sprites.take(n) =~= sprites);
    if st.cur.len() > 0 {
        st.rows.lemma_flatten_push(st.cur);
    } else {
        assert(st.rows.flatten() + st.cur =~= st.rows.flatten());
    }
}

/// Every row is non-empty, and a row exceeds the width limit only when it
/// holds exactly one sprite (an oversized sprite is placed alone, never
/// rejected).
pub proof fn lemma_plan_row_widths(sprites: Seq<Sprite>, limit: int, spacing: u32)
    requires
        sprites.len() <= usize::MAX,
        limit >= 0,
    ensures
        forall|j: int|
            0 <= j < plan_rows(sprites, limit, spacing).len() ==> (#[trigger] plan_rows(
                sprites,
                limit,
                spacing,
            )[j]).len() >= 1,
        forall|j: int|
            0 <= j < plan_rows(sprites, limit, spacing).len() && row_width(
                sprites,
                #[trigger] plan_rows(sprites, limit, spacing)[j],
                spacing,
            ) > limit ==> plan_rows(sprites, limit, spacing)[j].len() == 1,
{
    let n = sprites.len() as int;
    lemma_plan_state_inv(sprites, limit, spacing, n);
}

/// Every index a layout row holds points into the input.
pub proof fn lemma_plan_indices(sprites: Seq<Sprite>, limit: int, spacing: u32)
    requires
        sprites.len() <= usize::MAX,
        limit >= 0,
    ensures
        forall|j: int, k: int|
            0 <= j < plan_rows(sprites, limit, spacing).len() && 0 <= k < plan_rows(
                sprites,
                limit,
                spacing,
            )[j].len() ==> (#[trigger] plan_rows(sprites, limit, spacing)[j][k] as int)
                < sprites.len(),
{
    let n = sprites.len() as int;
    lemma_plan_state_inv(sprites, limit, spacing, n);
}

/// The widest-row tracker of the greedy pass is the widest planned row, and
/// it stays within the total width of the input plus the spacing budget.
pub proof fn lemma_plan_max_width(sprites: Seq<Sprite>, limit: int, spacing: u32)
    requires
        sprites.len() <= usize::MAX,
        limit >= 0,
    ensures
        plan_max_width(sprites, limit, spacing) == max_row_width(
            sprites,
            plan_rows(sprites, limit, spacing),
            spacing,
        ),
        plan_max_width(sprites, limit, spacing) >= 0,
        sprites.len() >= 1 ==> plan_max_width(sprites, limit, spacing) <= total_width(sprites)
            + spacing * (sprites.len() - 1),
{
    let n = sprites.len() as int;
    lemma_plan_state_inv(sprites, limit, spacing, n);
    let st = plan_state(sprites, limit, spacing, n);
    assert(sprites.take(n) =~= sprites);
    if st.cur.len() > 0 {
        lemma_max_row_width_push(sprites, st.rows, spacing, st.cur);
    }
}

/// How many rows the plan has: at most one per sprite, and at least one as
/// soon as there is a sprite.
pub proof fn lemma_plan_rows_len(sprites: Seq<Sprite>, limit: int, spacing: u32)
    requires
        sprites.len() <= usize::MAX,
        limit >= 0,
    ensures
        plan_rows(sprites, limit, spacing).len() <= sprites.len(),
        sprites.len() >= 1 ==> plan_rows(sprites, limit, spacing).len() >= 1,
{
    let n = sprites.len() as int;
    lemma_plan_state_inv(sprites, limit, spacing, n);
    let st = plan_state(sprites, limit, spacing, n);
    if sprites.len() >= 1 && plan_rows(sprites, limit, spacing).len() == 0 {
        lemma_plan_partition(sprites, limit, spacing);
        assert(plan_rows(sprites, limit, spacing).flatten().len() == 0);
    }
}

/// The heights of the planned rows sum to no more than the heights of all
/// sprites.
pub proof fn lemma_plan_height_sum(sprites: Seq<Sprite>, limit: int, spacing: u32)
    requires
        sprites.len() <= usize::MAX,
        limit >= 0,
    ensures
        rows_height_sum(sprites, plan_rows(sprites, limit, spacing)) <= total_height(sprites),
        rows_height_sum(sprites, plan_rows(sprites, limit, spacing)) >= 0,
{
    let n = sprites.len() as int;
    lemma_plan_state_inv(sprites, limit, spacing, n);
    let st = plan_state(sprites, limit, spacing, n);
    assert(sprites.take(n) =~= sprites);
    if st.cur.len() > 0 {
        lemma_rows_height_sum_push(sprites, st.rows, st.cur);
    } else {
        lemma_row_height_nonneg(sprites, st.cur);
    }
    lemma_rows_height_sum_nonneg(sprites, plan_rows(sprites, limit, spacing));
}

proof fn lemma_rows_height_sum_nonneg(sprites: Seq<Sprite>, rows: Seq<Seq<usize>>)
    ensures
        rows_height_sum(sprites, rows) >= 0,
    decreases rows.len(),
{
    if rows.len() > 0 {
        lemma_rows_height_sum_nonneg(sprites, rows.drop_last());
        lemma_row_height_nonneg(sprites, rows.last());
    }
}

proof fn lemma_total_width_nonneg(sprites: Seq<Sprite>)
    ensures
        total_width(sprites) >= 0,
    decreases sprites.len(),
{
    if sprites.len() > 0 {
        lemma_total_width_nonneg(sprites.drop_last());
    }
}

proof fn lemma_total_height_nonneg(sprites: Seq<Sprite>)
    ensures
        total_height(sprites) >= 0,
    decreases sprites.len(),
{
    if sprites.len() > 0 {
        lemma_total_height_nonneg(sprites.drop_last());
    }
}

proof fn lemma_rows_height_sum_take_step(sprites: Seq<Sprite>, rows: Seq<Seq<usize>>, j: int)
    requires
        0 <= j < rows.len(),
    ensures
        rows_height_sum(sprites, rows.take(j + 1)) == rows_height_sum(sprites, rows.take(j))
            + row_height(sprites, rows[j]),
{
    let t = rows.take(j + 1);
    assert(t.drop_last() =~= rows.take(j));
    assert(t.last() == rows[j]);
}

proof fn lemma_rows_height_sum_take_le(sprites: Seq<Sprite>, rows: Seq<Seq<usize>>, j: int)
    requires
        0 <= j <= rows.len(),
    ensures
        rows_height_sum(sprites, rows.take(j)) <= rows_height_sum(sprites, rows),
    decreases rows.len() - j,
{
    if j == rows.len() {
        assert(rows.take(j) =~= rows);
    } else {
        lemma_rows_height_sum_take_step(sprites, rows, j);
        lemma_row_height_nonneg(sprites, rows[j]);
        lemma_rows_height_sum_take_le(sprites, rows, j + 1);
    }
}

impl CanvasDimensions {
    /// Plans the multi-row layout for the given sprites within the given
    /// terminal width, and computes the dimensions of the canvas that will
    /// hold them.  The width is taken as resolved: raising a measured width
    /// to the configured minimum is the caller's step.
    pub fn calculate_for_wrapped(sprites: &Vec<Sprite>, terminal_width: u32) -> (r: Result<
        (CanvasDimensions, SpriteLayout),
        SpriteError,
    >)
        requires
            sprites@.len() >= 1,
            total_width(sprites@) + SPRITE_SPACING * (sprites@.len() - 1) <= u32::MAX,
            total_height(sprites@) + SPRITE_SPACING * (sprites@.len() - 1) <= u32::MAX,
        ensures
            r is Ok,
            ({
                let rows = plan_rows(sprites@, terminal_width as int, SPRITE_SPACING);
                &&& r->Ok_0.1@ == rows
                &&& r->Ok_0.0.width == spec_canvas_width(sprites@, rows, SPRITE_SPACING)
                &&& r->Ok_0.0.height == spec_canvas_height(sprites@, rows, SPRITE_SPACING)
            }),
    {
        let n = sprites.len();
        let tw = terminal_width;
        proof {
            lemma_total_width_nonneg(sprites@);
            lemma_total_height_nonneg(sprites@);
        }

        let mut rows: Vec<Vec<usize>> = Vec::new();
        let mut current_row: Vec<usize> = Vec::new();
        let mut current_row_width: u32 = 0;
        let mut max_width: u32 = 0;
        let mut i: usize = 0;
        while i < n
            invariant
                n == sprites@.len(),
                1 <= n,
                i <= n,
                tw == terminal_width,
                total_width(sprites@) + SPRITE_SPACING * (n - 1) <= u32::MAX,
                ({
                    let st = plan_state(sprites@, tw as int, SPRITE_SPACING, i as int);
                    &&& rows@.map_values(|r: Vec<usize>| r@) == st.rows
                    &&& current_row@ == st.cur
                    &&& current_row_width as int == st.cur_w
                    &&& max_width as int == st.max_w
                }),
            decreases n - i,
        {
            proof {
                lemma_plan_state_inv(sprites@, tw as int, SPRITE_SPACING, i as int);
                lemma_total_width_take_step(sprites@, i as int);
                lemma_total_width_take_le(sprites@, i as int + 1);
                if i >= 1 {
                    assert(SPRITE_SPACING * (i - 1) + SPRITE_SPACING == SPRITE_SPACING * (
                    i as int)) by (nonlinear_arith);
                }
                assert(SPRITE_SPACING * (i as int) <= SPRITE_SPACING * (n - 1)) by (nonlinear_arith)
                    requires i as int <= n - 1;
            }
            let ghost st = plan_state(sprites@, tw as int, SPRITE_SPACING, i as int);
            let sprite_width = sprites[i].width;

            let needed_width = if current_row.is_empty() {
                sprite_width
            } else {
                current_row_width + SPRITE_SPACING + sprite_width
            };

            if needed_width > tw && !current_row.is_empty() {
                // close the current row and start a new one with this sprite
                rows.push(current_row);
                if current_row_width > max_width {
                    max_width = current_row_width;
                }
                current_row = vec![i];
                current_row_width = sprite_width;
            } else {
                current_row.push(i);
                current_row_width = needed_width;
            }
            i = i + 1;
            proof {
                let st2 = plan_state(sprites@, tw as int, SPRITE_SPACING, i as int);
                assert(st2 == plan_step(sprites@, tw as int, SPRITE_SPACING, st, i - 1));
                assert(rows@.map_values(|r: Vec<usize>| r@) =~= st2.rows);
                assert(current_row@ =~= st2.cur);
            }
        }

        assert(i == n);
        let ghost st = plan_state(sprites@, tw as int, SPRITE_SPACING, n as int);
        let ghost planned = plan_rows(sprites@, tw as int, SPRITE_SPACING);
        if !current_row.is_empty() {
            rows.push(current_row);
            if current_row_width > max_width {
                max_width = current_row_width;
            }
        }
        proof {
            lemma_plan_state_inv(sprites@, tw as int, SPRITE_SPACING, n as int);
            lemma_plan_max_width(sprites@, tw as int, SPRITE_SPACING);
            lemma_plan_rows_len(sprites@, tw as int, SPRITE_SPACING);
            lemma_plan_height_sum(sprites@, tw as int, SPRITE_SPACING);
            lemma_plan_indices(sprites@, tw as int, SPRITE_SPACING);
            assert(rows@.map_values(|r: Vec<usize>| r@) =~= planned);
            assert(max_width as int == plan_max_width(sprites@, tw as int, SPRITE_SPACING));
        }

        // total height: tallest sprite of each row, summed
        let n_rows = rows.len();
        let mut total_h: u32 = 0;
        let mut j: usize = 0;
        while j < n_rows
            invariant
                n == sprites@.len(),
                1 <= n,
                n_rows == rows@.len(),
                j <= n_rows,
                rows@.map_values(|r: Vec<usize>| r@) == planned,
                total_height(sprites@) + SPRITE_SPACING * (n - 1) <= u32::MAX,
                rows_height_sum(sprites@, planned) <= total_height(sprites@),
                forall|a: int, b: int|
                    0 <= a < planned.len() && 0 <= b < planned[a].len() ==> (
                    #[trigger] planned[a][b] as int) < n,
                total_h as int == rows_height_sum(sprites@, planned.take(j as int)),
            decreases n_rows - j,
        {
            let row_len = rows[j].len();
            let mut row_h: u32 = 0;
            let mut k: usize = 0;
            while k < row_len
                invariant
                    n == sprites@.len(),
                    j < rows@.len(),
                    rows@.map_values(|r: Vec<usize>| r@) == planned,
                    row_len == rows@[j as int]@.len(),
                    k <= row_len,
                    forall|a: int, b: int|
                        0 <= a < planned.len() && 0 <= b < planned[a].len() ==> (
                        #[trigger] planned[a][b] as int) < n,
                    row_h as int == row_height(sprites@, planned[j as int].take(k as int)),
                decreases row_len - k,
            {
                assert(planned[j as int] == rows@[j as int]@);
                let idx = rows[j][k];
                assert(idx == planned[j as int][k as int]);
                let h = sprites[idx].height;
                proof {
                    let rowj = planned[j as int];
                    assert(rowj.take(k as int + 1) =~= rowj.take(k as int).push(rowj[k as int]));
                    lemma_row_height_push(sprites@, rowj.take(k as int), rowj[k as int]);
                }
                if h > row_h {
                    row_h = h;
                }
                k = k + 1;
            }
            proof {
                assert(planned[j as int].take(row_len as int) =~= planned[j as int]);
                lemma_rows_height_sum_take_step(sprites@, planned, j as int);
                lemma_rows_height_sum_take_le(sprites@, planned, j as int + 1);
                lemma_total_height_nonneg(sprites@);
                assert(SPRITE_SPACING * (n - 1) >= 0) by (nonlinear_arith)
                    requires n >= 1;
            }
            total_h = total_h + row_h;
            j = j + 1;
        }
        assert(planned.take(n_rows as int) =~= planned);

        // spacing between consecutive rows
        assert(n_rows >= 1);
        proof {
            lemma_total_width_nonneg(sprites@);
            assert(SPRITE_SPACING * (n - 1) <= u32::MAX);
            assert(n - 1 <= u32::MAX) by (nonlinear_arith)
                requires SPRITE_SPACING * (n - 1) <= u32::MAX, SPRITE_SPACING >= 1, n >= 1;
            assert(SPRITE_SPACING * (n_rows - 1) <= SPRITE_SPACING * (n - 1)) by (nonlinear_arith)
                requires 1 <= n_rows <= n;
            lemma_rows_height_sum_nonneg(sprites@, planned);
        }
        let spacing_total = ((n_rows - 1) as u32) * SPRITE_SPACING;
        total_h = total_h + spacing_total;

        let width = if max_width < 1 {
            1
        } else {
            max_width
        };
        let height = if total_h < 1 {
            1
        } else {
            total_h
        };
        Ok((CanvasDimensions { width, height }, SpriteLayout { rows }))
    }
}

/// Horizontal position of the `k`-th sprite of a row: the width the row
/// occupies up to and including that sprite, minus the sprite's own width.
pub open spec fn sprite_x(sprites: Seq<Sprite>, row: Seq<usize>, k: int, spacing: u32) -> int {
    row_width(sprites, row.take(k + 1), spacing) - sprites[row[k] as int].width
}

/// Vertical position of the top edge of row `j`: the heights of the rows
/// above it plus one spacing unit per row boundary crossed.
pub open spec fn row_top(sprites: Seq<Sprite>, rows: Seq<Seq<usize>>, j: int, spacing: u32) -> int {
    rows_height_sum(sprites, rows.take(j)) + spacing * j
}

/// Vertical position of the `k`-th sprite of row `j`: bottom-aligned within
/// the row.
pub open spec fn sprite_y(
    sprites: Seq<Sprite>,
    rows: Seq<Seq<usize>>,
    j: int,
    k: int,
    spacing: u32,
) -> int {
    row_top(sprites, rows, j, spacing) + row_height(sprites, rows[j]) - sprites[rows[j][k] as int].height
}

/// One sprite blitted onto a row-major canvas of width `cw` at position
/// `(x0, y0)`: pixels inside the sprite's footprint take the sprite's
/// pixels, all others keep the canvas's.
pub open spec fn blit(canvas: Seq<u32>, cw: int, sp: Sprite, x0: int, y0: int) -> Seq<u32> {
    Seq::new(
        canvas.len(),
        |p: int|
            {
                let px = p % cw;
                let py = p / cw;
                if x0 <= px < x0 + sp.width && y0 <= py < y0 + sp.height {
                    sp.pixels@[(py - y0) * (sp.width as int) + (px - x0)]
                } else {
                    canvas[p]
                }
            },
    )
}

/// The canvas after the sprites of `row` from position `k` on have been
/// placed, or the error that placing one of them raises: a placement whose
/// footprint leaves the canvas, or a sprite whose buffer does not match its
/// dimensions.
pub open spec fn compose_row(
    canvas: Seq<u32>,
    cw: int,
    ch: int,
    sprites: Seq<Sprite>,
    row: Seq<usize>,
    y_top: int,
    spacing: u32,
    k: int,
) -> Result<Seq<u32>, SpriteError>
    decreases row.len() - k,
{
    if k < 0 || k >= row.len() {
        Ok(canvas)
    } else {
        let idx = row[k] as int;
        let sp = sprites[idx];
        let x = sprite_x(sprites, row, k, spacing);
        let y = y_top + row_height(sprites, row) - sp.height;
        if x + sp.width > cw || y + sp.height > ch {
            Err(
                SpriteError::PositionOutOfBounds {
                    x: x as u32,
                    y: y as u32,
                    width: sp.width,
                    height: sp.height,
                    canvas_width: cw as u32,
                    canvas_height: ch as u32,
                },
            )
        } else if !sp.wf() {
            Err(SpriteError::CopyFailed { index: row[k] })
        } else {
            compose_row(blit(canvas, cw, sp, x, y), cw, ch, sprites, row, y_top, spacing, k + 1)
        }
    }
}

/// The canvas after the rows from `j` on have been placed, or the first
/// error raised while placing them.
pub open spec fn compose_rows(
    canvas: Seq<u32>,
    cw: int,
    ch: int,
    sprites: Seq<Sprite>,
    rows: Seq<Seq<usize>>,
    spacing: u32,
    j: int,
) -> Result<Seq<u32>, SpriteError>
    decreases rows.len() - j,
{
    if j < 0 || j >= rows.len() {
        Ok(canvas)
    } else {
        let y_top = row_top(sprites, rows, j, spacing);
        match compose_row(canvas, cw, ch, sprites, rows[j], y_top, spacing, 0) {
            Ok(c) => compose_rows(c, cw, ch, sprites, rows, spacing, j + 1),
            Err(e) => Err(e),
        }
    }
}

/// A fully transparent canvas of the given dimensions.
pub open spec fn blank_canvas(cw: int, ch: int) -> Seq<u32> {
    Seq::new((cw * ch) as nat, |p: int| 0u32)
}

/// What composing `sprites` into `rows` on a blank `cw` by `ch` canvas
/// yields: the final pixel buffer, or the first error.
pub open spec fn compose_spec(
    sprites: Seq<Sprite>,
    rows: Seq<Seq<usize>>,
    spacing: u32,
    cw: int,
    ch: int,
) -> Result<Seq<u32>, SpriteError> {
    compose_rows(blank_canvas(cw, ch), cw, ch, sprites, rows, spacing, 0)
}

/// One step of a row's width over a growing prefix.
proof fn lemma_row_width_take_step(sprites: Seq<Sprite>, row: Seq<usize>, spacing: u32, k: int)
    requires
        0 <= k < row.len(),
    ensures
        row_width(sprites, row.take(k + 1), spacing) == if k == 0 {
            sprites[row[0] as int].width as int
        } else {
            row_width(sprites, row.take(k), spacing) + spacing + sprites[row[k] as int].width
        },
{
    assert(row.take(k + 1) =~= row.take(k).push(row[k]));
    lemma_row_width_push(sprites, row.take(k), spacing, row[k]);
}

/// A prefix of a row is no wider than the whole row.
proof fn lemma_row_width_take_le(sprites: Seq<Sprite>, row: Seq<usize>, spacing: u32, k: int)
    requires
        0 <= k <= row.len(),
    ensures
        row_width(sprites, row.take(k), spacing) <= row_width(sprites, row, spacing),
    decreases row.len() - k,
{
    if k == row.len() {
        assert(row.take(k) =~= row);
    } else {
        lemma_row_width_take_step(sprites, row, spacing, k);
        lemma_row_width_nonneg(sprites, row.take(k), spacing);
        lemma_row_width_take_le(sprites, row, spacing, k + 1);
    }
}

/// Builds and owns the canvas while sprites are copied onto it.
pub struct SpriteComposer {
    pub canvas: Canvas,
}

impl SpriteComposer {
    /// Allocates a blank, fully transparent canvas of the given dimensions.
    pub fn new(dimensions: &CanvasDimensions) -> (s: Self)
        requires
            dimensions.width as int * dimensions.height as int <= usize::MAX,
        ensures
            s.canvas.width == dimensions.width,
            s.canvas.height == dimensions.height,
            s.canvas.pixels@ == blank_canvas(dimensions.width as int, dimensions.height as int),
            s.canvas.wf(),
    {
        let n: usize = (dimensions.width as usize) * (dimensions.height as usize);
        let mut pixels: Vec<u32> = Vec::new();
        let mut p: usize = 0;
        while p < n
            invariant
                p <= n,
                pixels@.len() == p,
                forall|q: int| 0 <= q < p ==> pixels@[q] == 0u32,
            decreases n - p,
        {
            pixels.push(0);
            p = p + 1;
        }
        assert(pixels@ =~= blank_canvas(dimensions.width as int, dimensions.height as int));
        SpriteComposer {
            canvas: Canvas { width: dimensions.width, height: dimensions.height, pixels },
        }
    }

    /// Copies every sprite of the layout onto the canvas, row by row and in
    /// order, each bottom-aligned within its row, and returns the finished
    /// canvas; fails on a placement that leaves the canvas or a sprite whose
    /// buffer does not match its dimensions.
    pub fn compose_with_layout(self, sprites: &Vec<Sprite>, layout: &SpriteLayout) -> (r: Result<
        Canvas,
        SpriteError,
    >)
        requires
            self.canvas.wf(),
            self.canvas.width >= 1,
            forall|j: int, k: int|
                0 <= j < layout@.len() && 0 <= k < layout@[j].len() ==> (#[trigger] layout@[j][k] as int)
                    < sprites@.len(),
            forall|j: int|
                0 <= j < layout@.len() ==> row_width(sprites@, #[trigger] layout@[j], SPRITE_SPACING)
                    <= u32::MAX,
            rows_height_sum(sprites@, layout@) + SPRITE_SPACING * layout@.len() <= u32::MAX,
        ensures
            ({
                let spec_r = compose_rows(
                    self.canvas.pixels@,
                    self.canvas.width as int,
                    self.canvas.height as int,
                    sprites@,
                    layout@,
                    SPRITE_SPACING,
                    0,
                );
                match r {
                    Ok(c) => {
                        &&& spec_r is Ok
                        &&& c.pixels@ == spec_r->Ok_0
                        &&& c.width == self.canvas.width
                        &&& c.height == self.canvas.height
                        &&& c.wf()
                    },
                    Err(e) => spec_r == Result::<Seq<u32>, SpriteError>::Err(e),
                }
            }),
    {
        let mut canvas = self.canvas;
        let ghost c0 = canvas.pixels@;
        let ghost cw = canvas.width as int;
        let ghost ch = canvas.height as int;
        let ghost rows = layout@;

        let mut y_offset: u32 = 0;
        let n_rows = layout.rows.len();
        let mut j: usize = 0;
        while j < n_rows
            invariant
                canvas.wf(),
                canvas.width as int == cw,
                canvas.height as int == ch,
                cw >= 1,
                c0 == self.canvas.pixels@,
                cw == self.canvas.width as int,
                ch == self.canvas.height as int,
                n_rows == rows.len(),
                j <= n_rows,
                rows == layout@,
                forall|a: int, b: int|
                    0 <= a < rows.len() && 0 <= b < rows[a].len() ==> (#[trigger] rows[a][b] as int)
                        < sprites@.len(),
                forall|a: int|
                    0 <= a < rows.len() ==> row_width(sprites@, #[trigger] rows[a], SPRITE_SPACING)
                        <= u32::MAX,
                rows_height_sum(sprites@, rows) + SPRITE_SPACING * rows.len() <= u32::MAX,
                y_offset as int == row_top(sprites@, rows, j as int, SPRITE_SPACING),
                compose_rows(c0, cw, ch, sprites@, rows, SPRITE_SPACING, 0) == compose_rows(
                    canvas.pixels@,
                    cw,
                    ch,
                    sprites@,
                    rows,
                    SPRITE_SPACING,
                    j as int,
                ),
            decreases n_rows - j,
        {
            let ghost row = rows[j as int];
            assert(row == layout.rows@[j as int]@);

            // the row's height: its tallest sprite
            let row_len = layout.rows[j].len();
            let mut row_h: u32 = 0;
            let mut k: usize = 0;
            while k < row_len
                invariant
                    row == layout.rows@[j as int]@,
                    j < layout.rows@.len(),
                    row_len == row.len(),
                    k <= row_len,
                    forall|b: int| 0 <= b < row.len() ==> (#[trigger] row[b] as int) < sprites@.len(),
                    row_h as int == row_height(sprites@, row.take(k as int)),
                decreases row_len - k,
            {
                let idx = layout.rows[j][k];
                assert(idx == row[k as int]);
                let h = sprites[idx].height;
                proof {
                    assert(row.take(k as int + 1) =~= row.take(k as int).push(row[k as int]));
                    lemma_row_height_push(sprites@, row.take(k as int), row[k as int]);
                }
                if h > row_h {
                    row_h = h;
                }
                k = k + 1;
            }
            assert(row.take(row_len as int) =~= row);
            assert(row_h as int == row_height(sprites@, row));

            // place the row's sprites left to right, bottom-aligned
            let ghost y_top = y_offset as int;
            let ghost pix_row_start = canvas.pixels@;
            let mut x_offset: u32 = 0;
            let mut k: usize = 0;
            proof {
                lemma_rows_height_sum_take_step(sprites@, rows, j as int);
                lemma_rows_height_sum_take_le(sprites@, rows, j as int + 1);
                lemma_row_height_nonneg(sprites@, row);
                assert(SPRITE_SPACING * (j as int) + SPRITE_SPACING == SPRITE_SPACING * (j as int
                    + 1)) by (nonlinear_arith);
                assert(SPRITE_SPACING * (j as int + 1) <= SPRITE_SPACING * rows.len())
                    by (nonlinear_arith)
                    requires j as int + 1 <= rows.len();
                lemma_rows_height_sum_nonneg(sprites@, rows.take(j as int));
            }
            assert(y_top + row_h <= u32::MAX);
            while k < row_len
                invariant
                    canvas.wf(),
                    canvas.width as int == cw,
                    canvas.height as int == ch,
                    cw >= 1,
                    c0 == self.canvas.pixels@,
                    cw == self.canvas.width as int,
                    ch == self.canvas.height as int,
                    row == layout.rows@[j as int]@,
                    j < layout.rows@.len(),
                    row_len == row.len(),
                    k <= row_len,
                    forall|b: int| 0 <= b < row.len() ==> (#[trigger] row[b] as int) < sprites@.len(),
                    row_width(sprites@, row, SPRITE_SPACING) <= u32::MAX,
                    row_h as int == row_height(sprites@, row),
                    y_top + row_h <= u32::MAX,
                    y_top >= 0,
                    y_offset as int == y_top,
                    rows == layout@,
                    n_rows == rows.len(),
                    j < n_rows,
                    row == rows[j as int],
                    y_top == row_top(sprites@, rows, j as int, SPRITE_SPACING),
                    compose_rows(c0, cw, ch, sprites@, rows, SPRITE_SPACING, 0) == compose_rows(
                        pix_row_start,
                        cw,
                        ch,
                        sprites@,
                        rows,
                        SPRITE_SPACING,
                        j as int,
                    ),
                    k < row_len ==> x_offset as int == sprite_x(sprites@, row, k as int, SPRITE_SPACING),
                    compose_row(pix_row_start, cw, ch, sprites@, row, y_top, SPRITE_SPACING, 0)
                        == compose_row(
                        canvas.pixels@,
                        cw,
                        ch,
                        sprites@,
                        row,
                        y_top,
                        SPRITE_SPACING,
                        k as int,
                    ),
                decreases row_len - k,
            {
                let idx = layout.rows[j][k];
                assert(idx == row[k as int]);
                let sprite_w = sprites[idx].width;
                let sprite_h = sprites[idx].height;
                proof {
                    lemma_row_width_take_step(sprites@, row, SPRITE_SPACING, k as int);
                    lemma_row_width_take_le(sprites@, row, SPRITE_SPACING, k as int + 1);
                    lemma_row_width_nonneg(sprites@, row.take(k as int), SPRITE_SPACING);
                    lemma_row_height_member(sprites@, row, k as int);
                }
                assert(x_offset + sprite_w == row_width(sprites@, row.take(k as int + 1), SPRITE_SPACING));
                assert(sprite_h <= row_h);

                // bottom-align within the row
                let sprite_y = y_offset + row_h - sprite_h;

                // the footprint must lie inside the canvas
                if x_offset + sprite_w > canvas.width || sprite_y + sprite_h > canvas.height {
                    let e = SpriteError::PositionOutOfBounds {
                        x: x_offset,
                        y: sprite_y,
                        width: sprite_w,
                        height: sprite_h,
                        canvas_width: canvas.width,
                        canvas_height: canvas.height,
                    };
                    proof {
                        assert(compose_row(
                            canvas.pixels@,
                            cw,
                            ch,
                            sprites@,
                            row,
                            y_top,
                            SPRITE_SPACING,
                            k as int,
                        ) == Result::<Seq<u32>, SpriteError>::Err(e));
                        assert(compose_rows(c0, cw, ch, sprites@, rows, SPRITE_SPACING, 0)
                            == Result::<Seq<u32>, SpriteError>::Err(e));
                    }
                    return Err(e);
                }

                // the sprite's buffer must match its dimensions
                let sp_pix_len = sprites[idx].pixels.len();
                let wf_ok = match (sprite_w as usize).checked_mul(sprite_h as usize) {
                    Some(n) => sp_pix_len == n,
                    None => false,
                };
                assert(wf_ok == sprites@[idx as int].wf());
                if !wf_ok {
                    let e = SpriteError::CopyFailed { index: idx };
                    proof {
                        assert(compose_row(
                            canvas.pixels@,
                            cw,
                            ch,
                            sprites@,
                            row,
                            y_top,
                            SPRITE_SPACING,
                            k as int,
                        ) == Result::<Seq<u32>, SpriteError>::Err(e));
                        assert(compose_rows(c0, cw, ch, sprites@, rows, SPRITE_SPACING, 0)
                            == Result::<Seq<u32>, SpriteError>::Err(e));
                    }
                    return Err(e);
                }
                assert(sprites@[idx as int].wf());

                let ghost pix_before = canvas.pixels@;
                blit_sprite(&mut canvas, &sprites[idx], x_offset, sprite_y);

                // advance past this sprite; spacing only between sprites
                proof {
                    if k as int + 1 < row_len {
                        lemma_row_width_take_step(sprites@, row, SPRITE_SPACING, k as int + 1);
                        lemma_row_width_take_le(sprites@, row, SPRITE_SPACING, k as int + 2);
                    }
                }
                if k < row_len - 1 {
                    x_offset = x_offset + sprite_w + SPRITE_SPACING;
                } else {
                    x_offset = x_offset + sprite_w;
                }
                k = k + 1;
            }
            assert(compose_row(pix_row_start, cw, ch, sprites@, row, y_top, SPRITE_SPACING, 0)
                == Result::<Seq<u32>, SpriteError>::Ok(canvas.pixels@));

            proof {
                lemma_rows_height_sum_take_step(sprites@, rows, j as int);
                assert(SPRITE_SPACING * (j as int) + SPRITE_SPACING == SPRITE_SPACING * (j as int
                    + 1)) by (nonlinear_arith);
            }
            y_offset = y_offset + row_h + SPRITE_SPACING;
            j = j + 1;
        }
        Ok(canvas)
    }
}

/// The canvas while a blit is in progress: sprite rows before `dy` are
/// fully copied, and on row `dy` the pixels before `dx` are.
pub open spec fn blit_upto(
    canvas: Seq<u32>,
    cw: int,
    sp: Sprite,
    x0: int,
    y0: int,
    dy: int,
    dx: int,
) -> Seq<u32> {
    Seq::new(
        canvas.len(),
        |p: int|
            {
                let px = p % cw;
                let py = p / cw;
                if x0 <= px < x0 + sp.width && y0 <= py < y0 + sp.height && (py - y0 < dy || (py
                    - y0 == dy && px - x0 < dx)) {
                    sp.pixels@[(py - y0) * (sp.width as int) + (px - x0)]
                } else {
                    canvas[p]
                }
            },
    )
}

/// Copies one sprite's pixels onto the canvas at `(x0, y0)`, pixel for
/// pixel.
fn blit_sprite(canvas: &mut Canvas, sp: &Sprite, x0: u32, y0: u32)
    requires
        old(canvas).wf(),
        old(canvas).width >= 1,
        sp.wf(),
        x0 + sp.width <= old(canvas).width,
        y0 + sp.height <= old(canvas).height,
    ensures
        final(canvas).width == old(canvas).width,
        final(canvas).height == old(canvas).height,
        final(canvas).wf(),
        final(canvas).pixels@ == blit(
            old(canvas).pixels@,
            old(canvas).width as int,
            *sp,
            x0 as int,
            y0 as int,
        ),
{
    let cw = canvas.width;
    let ghost c0 = canvas.pixels@;
    let ghost cwi = cw as int;
    let mut dy: u32 = 0;
    assert(canvas.pixels@ =~= blit_upto(c0, cwi, *sp, x0 as int, y0 as int, 0, 0));
    while dy < sp.height
        invariant
            dy <= sp.height,
            canvas.wf(),
            canvas.width == cw,
            cw >= 1,
            cwi == cw as int,
            canvas.height == old(canvas).height,
            sp.wf(),
            x0 + sp.width <= cw,
            y0 + sp.height <= canvas.height,
            c0.len() == canvas.pixels@.len(),
            canvas.pixels@ == blit_upto(c0, cwi, *sp, x0 as int, y0 as int, dy as int, 0),
        decreases sp.height - dy,
    {
        let mut dx: u32 = 0;
        while dx < sp.width
            invariant
                dx <= sp.width,
                dy < sp.height,
                canvas.wf(),
                canvas.width == cw,
                cw >= 1,
                cwi == cw as int,
                canvas.height == old(canvas).height,
                sp.wf(),
                x0 + sp.width <= cw,
                y0 + sp.height <= canvas.height,
                c0.len() == canvas.pixels@.len(),
                canvas.pixels@ == blit_upto(
                    c0,
                    cwi,
                    *sp,
                    x0 as int,
                    y0 as int,
                    dy as int,
                    dx as int,
                ),
            decreases sp.width - dx,
        {
            proof {
                let swi = sp.width as int;
                let shi = sp.height as int;
                let chi = canvas.height as int;
                let dyi = dy as int;
                let dxi = dx as int;
                let x0i = x0 as int;
                let y0i = y0 as int;
                assert(0 <= dyi * swi && dyi * swi + dxi < shi * swi) by (nonlinear_arith)
                    requires
                        0 <= dyi < shi,
                        0 <= dxi < swi,
                ;
                assert(shi * swi == swi * shi) by (nonlinear_arith);
                assert(0 <= (y0i + dyi) * cwi && (y0i + dyi) * cwi + (x0i + dxi) < chi * cwi)
                    by (nonlinear_arith)
                    requires
                        0 <= y0i,
                        0 <= dyi,
                        y0i + dyi < chi,
                        0 <= x0i + dxi < cwi,
                        cwi >= 1,
                ;
                assert(chi * cwi == cwi * chi) by (nonlinear_arith);
            }
            let sp_len = sp.pixels.len();
            let c_len = canvas.pixels.len();
            assert(sp_len == sp.width * sp.height);
            assert(c_len == cw * canvas.height);
            let sidx: usize = (dy as usize) * (sp.width as usize) + (dx as usize);
            let v = sp.pixels[sidx];
            let cidx: usize = ((y0 + dy) as usize) * (cw as usize) + ((x0 + dx) as usize);
            let ghost before = canvas.pixels@;
            canvas.pixels[cidx] = v;
            proof {
                let x0i = x0 as int;
                let y0i = y0 as int;
                let dyi = dy as int;
                let dxi = dx as int;
                let swi = sp.width as int;
                let q = (y0i + dyi) * cwi + (x0i + dxi);
                vstd::arithmetic::div_mod::lemma_fundamental_div_mod_converse(
                    q,
                    cwi,
                    y0i + dyi,
                    x0i + dxi,
                );
                assert(cidx as int == q);
                assert(canvas.pixels@ == before.update(q, v));
                assert(sidx as int == dyi * swi + dxi);
                assert(v == sp.pixels@[dyi * swi + dxi]);
                assert forall|p: int| 0 <= p < c0.len() implies canvas.pixels@[p] == blit_upto(
                    c0,
                    cwi,
                    *sp,
                    x0i,
                    y0i,
                    dyi,
                    dxi + 1,
                )[p] by {
                    vstd::arithmetic::div_mod::lemma_fundamental_div_mod(p, cwi);
                    if p == q {
                        assert(q % cwi == x0i + dxi);
                        assert(q / cwi == y0i + dyi);
                        assert(canvas.pixels@[p] == v);
                        assert(blit_upto(c0, cwi, *sp, x0i, y0i, dyi, dxi + 1)[p] == sp.pixels@[dyi
                            * swi + dxi]);
                    } else {
                        assert(canvas.pixels@[p] == before[p]);
                        assert(before[p] == blit_upto(c0, cwi, *sp, x0i, y0i, dyi, dxi)[p]);
                        if p % cwi == x0i + dxi && p / cwi == y0i + dyi {
                            assert(p == cwi * (p / cwi) + p % cwi);
                            assert(cwi * (y0i + dyi) == (y0i + dyi) * cwi) by (nonlinear_arith);
                            assert(p == q);
                        }
                        assert(!(p % cwi == x0i + dxi && p / cwi == y0i + dyi));
                        assert(blit_upto(c0, cwi, *sp, x0i, y0i, dyi, dxi + 1)[p] == blit_upto(
                            c0,
                            cwi,
                            *sp,
                            x0i,
                            y0i,
                            dyi,
                            dxi,
                        )[p]);
                    }
                }
                assert(canvas.pixels@ =~= blit_upto(c0, cwi, *sp, x0i, y0i, dyi, dxi + 1));
            }
            dx = dx + 1;
        }
        proof {
            assert(blit_upto(c0, cwi, *sp, x0 as int, y0 as int, dy as int, sp.width as int)
                =~= blit_upto(c0, cwi, *sp, x0 as int, y0 as int, dy as int + 1, 0));
        }
        dy = dy + 1;
    }
    proof {
        assert(blit_upto(c0, cwi, *sp, x0 as int, y0 as int, sp.height as int, 0) =~= blit(
            c0,
            cwi,
            *sp,
            x0 as int,
            y0 as int,
        ));
    }
}

/// Each row is at most as wide as the widest.
proof fn lemma_max_row_width_member(
    sprites: Seq<Sprite>,
    rows: Seq<Seq<usize>>,
    spacing: u32,
    j: int,
)
    requires
        0 <= j < rows.len(),
    ensures
        row_width(sprites, rows[j], spacing) <= max_row_width(sprites, rows, spacing),
    decreases rows.len(),
{
    if j < rows.len() - 1 {
        assert(rows.drop_last()[j] == rows[j]);
        lemma_max_row_width_member(sprites, rows.drop_last(), spacing, j);
    }
}

/// A row whose placements all fit inside the canvas, made of sprites whose
/// buffers match their dimensions, composes without error, onto a canvas of
/// unchanged size.
proof fn lemma_compose_row_ok(
    canvas: Seq<u32>,
    cw: int,
    ch: int,
    sprites: Seq<Sprite>,
    row: Seq<usize>,
    y_top: int,
    spacing: u32,
    k: int,
)
    requires
        0 <= k <= row.len(),
        forall|k2: int|
            k <= k2 < row.len() ==> row_width(sprites, #[trigger] row.take(k2 + 1), spacing) <= cw,
        y_top + row_height(sprites, row) <= ch,
        forall|k2: int| 0 <= k2 < row.len() ==> (#[trigger] row[k2] as int) < sprites.len(),
        forall|k2: int| 0 <= k2 < row.len() ==> (#[trigger] sprites[row[k2] as int]).wf(),
    ensures
        compose_row(canvas, cw, ch, sprites, row, y_top, spacing, k) is Ok,
        compose_row(canvas, cw, ch, sprites, row, y_top, spacing, k)->Ok_0.len() == canvas.len(),
    decreases row.len() - k,
{
    if k < row.len() {
        let idx = row[k] as int;
        let sp = sprites[idx];
        let x = sprite_x(sprites, row, k, spacing);
        assert(x + sp.width == row_width(sprites, row.take(k + 1), spacing));
        assert(row_width(sprites, row.take(k + 1), spacing) <= cw);
        let y = y_top + row_height(sprites, row) - sp.height;
        assert(y + sp.height <= ch);
        lemma_compose_row_ok(
            blit(canvas, cw, sp, x, y),
            cw,
            ch,
            sprites,
            row,
            y_top,
            spacing,
            k + 1,
        );
    }
}

/// Rows whose placements all fit compose without error.
proof fn lemma_compose_rows_ok(
    canvas: Seq<u32>,
    cw: int,
    ch: int,
    sprites: Seq<Sprite>,
    rows: Seq<Seq<usize>>,
    spacing: u32,
    j: int,
)
    requires
        0 <= j <= rows.len(),
        forall|j2: int, k2: int|
            0 <= j2 < rows.len() && 0 <= k2 < rows[j2].len() ==> row_width(
                sprites,
                #[trigger] rows[j2].take(k2 + 1),
                spacing,
            ) <= cw,
        forall|j2: int|
            0 <= j2 < rows.len() ==> row_top(sprites, rows, j2, spacing) + row_height(
                sprites,
                #[trigger] rows[j2],
            ) <= ch,
        forall|j2: int, k2: int|
            0 <= j2 < rows.len() && 0 <= k2 < rows[j2].len() ==> (#[trigger] rows[j2][k2] as int)
                < sprites.len(),
        forall|j2: int, k2: int|
            0 <= j2 < rows.len() && 0 <= k2 < rows[j2].len() ==> (#[trigger] sprites[rows[j2][k2] as int]).wf(),
    ensures
        compose_rows(canvas, cw, ch, sprites, rows, spacing, j) is Ok,
        compose_rows(canvas, cw, ch, sprites, rows, spacing, j)->Ok_0.len() == canvas.len(),
    decreases rows.len() - j,
{
    if j < rows.len() {
        let y_top = row_top(sprites, rows, j, spacing);
        lemma_compose_row_ok(canvas, cw, ch, sprites, rows[j], y_top, spacing, 0);
        let c2 = compose_row(canvas, cw, ch, sprites, rows[j], y_top, spacing, 0)->Ok_0;
        lemma_compose_rows_ok(c2, cw, ch, sprites, rows, spacing, j + 1);
    }
}

/// The layout the planner produces always fits the dimensions it computes:
/// composing well-formed sprites into the planned rows on a canvas of the
/// planned size never leaves the canvas.
pub proof fn lemma_planned_compose_ok(sprites: Seq<Sprite>, limit: int, spacing: u32)
    requires
        1 <= sprites.len() <= usize::MAX,
        limit >= 0,
        forall|i: int| 0 <= i < sprites.len() ==> (#[trigger] sprites[i]).wf(),
    ensures
        ({
            let rows = plan_rows(sprites, limit, spacing);
            let cw = spec_canvas_width(sprites, rows, spacing);
            let ch = spec_canvas_height(sprites, rows, spacing);
            &&& compose_spec(sprites, rows, spacing, cw, ch) is Ok
            &&& compose_spec(sprites, rows, spacing, cw, ch)->Ok_0.len() == cw * ch
        }),
{
    let rows = plan_rows(sprites, limit, spacing);
    let cw = spec_canvas_width(sprites, rows, spacing);
    let ch = spec_canvas_height(sprites, rows, spacing);
    lemma_plan_indices(sprites, limit, spacing);
    lemma_plan_max_width(sprites, limit, spacing);
    lemma_plan_rows_len(sprites, limit, spacing);
    lemma_plan_height_sum(sprites, limit, spacing);

    assert forall|j2: int, k2: int|
        0 <= j2 < rows.len() && 0 <= k2 < rows[j2].len() implies row_width(
        sprites,
        #[trigger] rows[j2].take(k2 + 1),
        spacing,
    ) <= cw by {
        lemma_row_width_take_le(sprites, rows[j2], spacing, k2 + 1);
        lemma_max_row_width_member(sprites, rows, spacing, j2);
    }

    assert forall|j2: int|
        0 <= j2 < rows.len() implies row_top(sprites, rows, j2, spacing) + row_height(
        sprites,
        #[trigger] rows[j2],
    ) <= ch by {
        lemma_rows_height_sum_take_step(sprites, rows, j2);
        lemma_rows_height_sum_take_le(sprites, rows, j2 + 1);
        assert(spacing * j2 <= spacing * (rows.len() - 1)) by (nonlinear_arith)
            requires j2 <= rows.len() - 1;
        assert(rows_height_sum(sprites, rows.take(j2)) + row_height(sprites, rows[j2])
            == rows_height_sum(sprites, rows.take(j2 + 1)));
    }

    lemma_compose_rows_ok(blank_canvas(cw, ch), cw, ch, sprites, rows, spacing, 0);
}

/// Composing a row can only fail on a placement or on a sprite's buffer.
proof fn lemma_compose_row_errors(
    canvas: Seq<u32>,
    cw: int,
    ch: int,
    sprites: Seq<Sprite>,
    row: Seq<usize>,
    y_top: int,
    spacing: u32,
    k: int,
)
    ensures
        compose_row(canvas, cw, ch, sprites, row, y_top, spacing, k) is Err ==> (compose_row(
            canvas,
            cw,
            ch,
            sprites,
            row,
            y_top,
            spacing,
            k,
        )->Err_0 is PositionOutOfBounds || compose_row(
            canvas,
            cw,
            ch,
            sprites,
            row,
            y_top,
            spacing,
            k,
        )->Err_0 is CopyFailed),
    decreases row.len() - k,
{
    if 0 <= k < row.len() {
        let idx = row[k] as int;
        let sp = sprites[idx];
        let x = sprite_x(sprites, row, k, spacing);
        let y = y_top + row_height(sprites, row) - sp.height;
        if !(x + sp.width > cw || y + sp.height > ch) && sp.wf() {
            lemma_compose_row_errors(
                blit(canvas, cw, sp, x, y),
                cw,
                ch,
                sprites,
                row,
                y_top,
                spacing,
                k + 1,
            );
        }
    }
}

/// Composition as a whole can only fail on a placement or on a sprite's
/// buffer, never for want of input.
proof fn lemma_compose_rows_errors(
    canvas: Seq<u32>,
    cw: int,
    ch: int,
    sprites: Seq<Sprite>,
    rows: Seq<Seq<usize>>,
    spacing: u32,
    j: int,
)
    ensures
        compose_rows(canvas, cw, ch, sprites, rows, spacing, j) is Err ==> (compose_rows(
            canvas,
            cw,
            ch,
            sprites,
            rows,
            spacing,
            j,
        )->Err_0 is PositionOutOfBounds || compose_rows(
            canvas,
            cw,
            ch,
            sprites,
            rows,
            spacing,
            j,
        )->Err_0 is CopyFailed),
    decreases rows.len() - j,
{
    if 0 <= j < rows.len() {
        let y_top = row_top(sprites, rows, j, spacing);
        lemma_compose_row_errors(canvas, cw, ch, sprites, rows[j], y_top, spacing, 0);
        match compose_row(canvas, cw, ch, sprites, rows[j], y_top, spacing, 0) {
            Ok(c) => {
                lemma_compose_rows_errors(c, cw, ch, sprites, rows, spacing, j + 1);
            },
            Err(e) => {},
        }
    }
}

/// The canvas `combine_sprites` promises for a given input: dimensions and
/// every pixel are a function of the sprites and the terminal width alone.
pub open spec fn combined_canvas(sprites: Seq<Sprite>, terminal_width: u32, c: Canvas) -> bool {
    let rows = plan_rows(sprites, terminal_width as int, SPRITE_SPACING);
    let cw = spec_canvas_width(sprites, rows, SPRITE_SPACING);
    let ch = spec_canvas_height(sprites, rows, SPRITE_SPACING);
    let spec_r = compose_spec(sprites, rows, SPRITE_SPACING, cw, ch);
    &&& spec_r is Ok
    &&& c.width as int == cw
    &&& c.height as int == ch
    &&& c.pixels@ == spec_r->Ok_0
}

/// Combining the same sprites at the same terminal width twice yields
/// byte-identical canvases.
pub proof fn lemma_combine_deterministic(
    sprites: Seq<Sprite>,
    terminal_width: u32,
    c1: Canvas,
    c2: Canvas,
)
    requires
        combined_canvas(sprites, terminal_width, c1),
        combined_canvas(sprites, terminal_width, c2),
    ensures
        c1.width == c2.width,
        c1.height == c2.height,
        c1.pixels@ == c2.pixels@,
{
}

/// Every sprite is bottom-aligned within its row: its bottom edge lies on
/// the row's bottom edge, and its top edge is no higher than the row's top.
pub proof fn lemma_bottom_alignment(
    sprites: Seq<Sprite>,
    limit: int,
    spacing: u32,
    j: int,
    k: int,
)
    requires
        sprites.len() <= usize::MAX,
        limit >= 0,
        0 <= j < plan_rows(sprites, limit, spacing).len(),
        0 <= k < plan_rows(sprites, limit, spacing)[j].len(),
    ensures
        ({
            let rows = plan_rows(sprites, limit, spacing);
            let idx = rows[j][k] as int;
            &&& sprite_y(sprites, rows, j, k, spacing) + sprites[idx].height == row_top(
                sprites,
                rows,
                j,
                spacing,
            ) + row_height(sprites, rows[j])
            &&& sprite_y(sprites, rows, j, k, spacing) >= row_top(sprites, rows, j, spacing)
        }),
{
    let rows = plan_rows(sprites, limit, spacing);
    lemma_row_height_member(sprites, rows[j], k);
}

/// Resolves a measured terminal width, in columns, to the width the planner
/// uses: a missing measurement falls back to the configured minimum, and
/// any smaller measurement is raised to it.
pub fn resolve_terminal_width(measured: Option<u16>) -> (w: u32)
    ensures
        w >= MIN_TERMINAL_WIDTH,
        w as int == (match measured {
            Some(c) => clamped_width(c as u32),
            None => MIN_TERMINAL_WIDTH as int,
        }),
{
    match measured {
        Some(c) => {
            let w = c as u32;
            if w < MIN_TERMINAL_WIDTH {
                MIN_TERMINAL_WIDTH
            } else {
                w
            }
        },
        None => MIN_TERMINAL_WIDTH,
    }
}

/// Combines the sprites into one canvas: plans the row layout within the
/// terminal width, then composites every sprite bottom-aligned in its row.
pub fn combine_sprites(sprites: &Vec<Sprite>, terminal_width: u32) -> (r: Result<
    Canvas,
    SpriteError,
>)
    requires
        total_width(sprites@) + SPRITE_SPACING * sprites@.len() <= u32::MAX,
        total_height(sprites@) + SPRITE_SPACING * sprites@.len() <= u32::MAX,
        (total_width(sprites@) + SPRITE_SPACING * sprites@.len() + 1) * (total_height(sprites@)
            + SPRITE_SPACING * sprites@.len() + 1) <= usize::MAX,
    ensures
        sprites@.len() == 0 <==> r == Result::<Canvas, SpriteError>::Err(SpriteError::EmptyInput),
        sprites@.len() > 0 ==> (terminal_width < MIN_TERMINAL_WIDTH <==> r == Result::<
            Canvas,
            SpriteError,
        >::Err(SpriteError::TerminalTooNarrow)),
        sprites@.len() > 0 && terminal_width >= MIN_TERMINAL_WIDTH ==> ({
            let rows = plan_rows(sprites@, terminal_width as int, SPRITE_SPACING);
            let cw = spec_canvas_width(sprites@, rows, SPRITE_SPACING);
            let ch = spec_canvas_height(sprites@, rows, SPRITE_SPACING);
            let spec_r = compose_spec(sprites@, rows, SPRITE_SPACING, cw, ch);
            match r {
                Ok(c) => combined_canvas(sprites@, terminal_width, c) && c.wf(),
                Err(e) => spec_r == Result::<Seq<u32>, SpriteError>::Err(e),
            }
        }),
        sprites@.len() > 0 && terminal_width >= MIN_TERMINAL_WIDTH && (forall|i: int|
            0 <= i < sprites@.len() ==> (#[trigger] sprites@[i]).wf()) ==> r is Ok,
{
    if sprites.is_empty() {
        return Err(SpriteError::EmptyInput);
    }
    if terminal_width < MIN_TERMINAL_WIDTH {
        return Err(SpriteError::TerminalTooNarrow);
    }
    let ghost n = sprites@.len() as int;
    let ghost limit = terminal_width as int;
    let ghost rows = plan_rows(sprites@, limit, SPRITE_SPACING);
    let ghost cw = spec_canvas_width(sprites@, rows, SPRITE_SPACING);
    let ghost ch = spec_canvas_height(sprites@, rows, SPRITE_SPACING);
    proof {
        lemma_total_width_nonneg(sprites@);
        lemma_total_height_nonneg(sprites@);
        assert(SPRITE_SPACING * (n - 1) + SPRITE_SPACING == SPRITE_SPACING * n)
            by (nonlinear_arith);
        lemma_plan_indices(sprites@, limit, SPRITE_SPACING);
        lemma_plan_max_width(sprites@, limit, SPRITE_SPACING);
        lemma_plan_rows_len(sprites@, limit, SPRITE_SPACING);
        lemma_plan_height_sum(sprites@, limit, SPRITE_SPACING);
        assert(SPRITE_SPACING * rows.len() <= SPRITE_SPACING * n) by (nonlinear_arith)
            requires rows.len() <= n;
        assert forall|j2: int| 0 <= j2 < rows.len() implies row_width(
            sprites@,
            #[trigger] rows[j2],
            SPRITE_SPACING,
        ) <= u32::MAX by {
            lemma_max_row_width_member(sprites@, rows, SPRITE_SPACING, j2);
        }
        // the planned canvas area stays within the machine's address space
        let bw = total_width(sprites@) + SPRITE_SPACING * n + 1;
        let bh = total_height(sprites@) + SPRITE_SPACING * n + 1;
        assert(cw <= bw && ch <= bh);
        assert(cw * ch <= usize::MAX) by (nonlinear_arith)
            requires
                1 <= cw <= bw,
                1 <= ch <= bh,
                bw * bh <= usize::MAX,
        ;
    }

    let (dimensions, layout) = match CanvasDimensions::calculate_for_wrapped(
        sprites,
        terminal_width,
    ) {
        Ok(v) => v,
        Err(e) => {
            return Err(e);
        },
    };
    let composer = SpriteComposer::new(&dimensions);
    let r = composer.compose_with_layout(sprites, &layout);
    proof {
        if forall|i: int| 0 <= i < sprites@.len() ==> (#[trigger] sprites@[i]).wf() {
            lemma_planned_compose_ok(sprites@, limit, SPRITE_SPACING);
        }
        lemma_compose_rows_errors(
            blank_canvas(cw, ch),
            cw,
            ch,
            sprites@,
            rows,
            SPRITE_SPACING,
            0,
        );
    }
    r
}

} // verus!
