//! The order in which a plot's parts are drawn.
use vstd::prelude::*;

verus! {

/// One stage of drawing a plot onto its cleared background.
#[derive(Clone, Copy, Debug, PartialEq, Eq, Structural)]
pub enum DrawStep {
    /// All traces, in the order given.
    Traces,
    /// Grid lines at the ticks.
    Grid,
    /// The frame around the plot area.
    Axes,
    /// Tick marks and their labels.
    Ticks,
    /// The title above the plot area.
    Title,
    /// The x label below the plot area.
    XLabel,
    /// The rotated y label left of the plot area.
    YLabel,
    /// All overlays, in the order given.
    Overlays,
}

/// A one-step sequence when `present`, an empty one otherwise.
pub open spec fn step_if(present: bool, step: DrawStep) -> Seq<DrawStep> {
    if present {
        seq![step]
    } else {
        Seq::empty()
    }
}

/// The stages of a plot: a frameless image draws only its traces and then its overlays;
/// a framed plot draws the grid (if asked for), the frame, the ticks, the traces, the
/// title and axis labels it has, and then its overlays.
pub open spec fn draw_plan_spec(
    frameless: bool,
    grid: bool,
    has_title: bool,
    has_xlabel: bool,
    has_ylabel: bool,
) -> Seq<DrawStep> {
    if frameless {
        seq![DrawStep::Traces, DrawStep::Overlays]
    } else {
        step_if(grid, DrawStep::Grid) + seq![DrawStep::Axes, DrawStep::Ticks, DrawStep::Traces]
            + step_if(has_title, DrawStep::Title) + step_if(has_xlabel, DrawStep::XLabel) + step_if(
            has_ylabel,
            DrawStep::YLabel,
        ) + seq![DrawStep::Overlays]
    }
}

/// The stages of drawing a plot (see `draw_plan_spec`).
pub fn draw_plan(frameless: bool, grid: bool, has_title: bool, has_xlabel: bool, has_ylabel: bool) -> (r: Vec<DrawStep>)
    ensures
        r@ == draw_plan_spec(frameless, grid, has_title, has_xlabel, has_ylabel),
{
    let mut steps: Vec<DrawStep> = Vec::new();
    if frameless {
        steps.push(DrawStep::Traces);
        steps.push(DrawStep::Overlays);
        assert(steps@ =~= draw_plan_spec(frameless, grid, has_title, has_xlabel, has_ylabel));
        return steps;
    }
    if grid {
        steps.push(DrawStep::Grid);
    }
    steps.push(DrawStep::Axes);
    steps.push(DrawStep::Ticks);
    steps.push(DrawStep::Traces);
    if has_title {
        steps.push(DrawStep::Title);
    }
    if has_xlabel {
        steps.push(DrawStep::XLabel);
    }
    if has_ylabel {
        steps.push(DrawStep::YLabel);
    }
    steps.push(DrawStep::Overlays);
    assert(steps@ =~= draw_plan_spec(frameless, grid, has_title, has_xlabel, has_ylabel));
    steps
}

/// Overlays are drawn on top of everything, once; traces are drawn exactly once; a
/// frameless image has no grid, frame, ticks, title or labels.
pub proof fn law_draw_plan_shape(frameless: bool, grid: bool, has_title: bool, has_xlabel: bool, has_ylabel: bool)
    ensures
        ({
            let p = draw_plan_spec(frameless, grid, has_title, has_xlabel, has_ylabel);
            &&& p.len() > 0
            &&& p.last() == DrawStep::Overlays
            &&& forall|i: int| 0 <= i < p.len() - 1 ==> p[i] != DrawStep::Overlays
            &&& exists|i: int| 0 <= i < p.len() && p[i] == DrawStep::Traces
            &&& forall|i: int, j: int|
                0 <= i < p.len() && 0 <= j < p.len() && p[i] == DrawStep::Traces && p[j] == DrawStep::Traces ==> i == j
            &&& frameless ==> p == seq![DrawStep::Traces, DrawStep::Overlays]
        }),
{
    let p = draw_plan_spec(frameless, grid, has_title, has_xlabel, has_ylabel);
    if !frameless {
        let g = step_if(grid, DrawStep::Grid);
        let k = g.len() as int;
        assert(p[k + 2] == DrawStep::Traces);
        assert forall|i: int| 0 <= i < p.len() && p[i] == DrawStep::Traces implies i == k + 2 by {
            if i < k {
                assert(p[i] == DrawStep::Grid);
            }
        }
    } else {
        assert(p[0] == DrawStep::Traces);
    }
}

/// A framed plot draws a step for each part it has and for nothing else: the grid exactly
/// when asked for, the title, x label and y label exactly when they are present, and
/// always the frame, the ticks, the traces and the overlays. The grid, frame and ticks come
/// before the traces, the title and labels after them, and the overlays last. A frameless
/// image draws none of the framed parts.
pub proof fn law_draw_plan_parts(frameless: bool, grid: bool, has_title: bool, has_xlabel: bool, has_ylabel: bool)
    ensures
        ({
            let p = draw_plan_spec(frameless, grid, has_title, has_xlabel, has_ylabel);
            &&& !frameless ==> (p.contains(DrawStep::Grid) <==> grid)
            &&& !frameless ==> (p.contains(DrawStep::Title) <==> has_title)
            &&& !frameless ==> (p.contains(DrawStep::XLabel) <==> has_xlabel)
            &&& !frameless ==> (p.contains(DrawStep::YLabel) <==> has_ylabel)
            &&& !frameless ==> p.contains(DrawStep::Axes) && p.contains(DrawStep::Ticks)
            &&& p.contains(DrawStep::Traces) && p.contains(DrawStep::Overlays)
            &&& frameless ==> !p.contains(DrawStep::Grid) && !p.contains(DrawStep::Axes) && !p.contains(
                DrawStep::Ticks,
            ) && !p.contains(DrawStep::Title) && !p.contains(DrawStep::XLabel) && !p.contains(DrawStep::YLabel)
            &&& forall|i: int, j: int|
                0 <= i < p.len() && 0 <= j < p.len() && p[j] == DrawStep::Traces ==> (i < j <==> (p[i]
                    == DrawStep::Grid || p[i] == DrawStep::Axes || p[i] == DrawStep::Ticks))
        }),
{
    let p = draw_plan_spec(frameless, grid, has_title, has_xlabel, has_ylabel);
    if frameless {
        assert(p[0] == DrawStep::Traces && p[1] == DrawStep::Overlays);
        assert(!p.contains(DrawStep::Grid) && !p.contains(DrawStep::Axes) && !p.contains(DrawStep::Ticks)
            && !p.contains(DrawStep::Title) && !p.contains(DrawStep::XLabel) && !p.contains(DrawStep::YLabel)) by {
            assert forall|i: int| 0 <= i < p.len() implies p[i] == DrawStep::Traces || p[i] == DrawStep::Overlays by {
                assert(i == 0 || i == 1);
            }
        }
    } else {
        let g = step_if(grid, DrawStep::Grid);
        let k = g.len() as int;
        let t = step_if(has_title, DrawStep::Title);
        let xl = step_if(has_xlabel, DrawStep::XLabel);
        let yl = step_if(has_ylabel, DrawStep::YLabel);
        let kt = t.len() as int;
        let kx = xl.len() as int;
        let ky = yl.len() as int;
        assert(p.len() == k + 3 + kt + kx + ky + 1);
        // What sits at each position.
        assert forall|i: int| 0 <= i < p.len() implies ({
            &&& (0 <= i < k ==> p[i] == DrawStep::Grid)
            &&& (i == k ==> p[i] == DrawStep::Axes)
            &&& (i == k + 1 ==> p[i] == DrawStep::Ticks)
            &&& (i == k + 2 ==> p[i] == DrawStep::Traces)
            &&& (k + 3 <= i < k + 3 + kt ==> p[i] == DrawStep::Title)
            &&& (k + 3 + kt <= i < k + 3 + kt + kx ==> p[i] == DrawStep::XLabel)
            &&& (k + 3 + kt + kx <= i < k + 3 + kt + kx + ky ==> p[i] == DrawStep::YLabel)
            &&& (i == p.len() - 1 ==> p[i] == DrawStep::Overlays)
        }) by {
        }
        assert(p[k] == DrawStep::Axes && p[k + 1] == DrawStep::Ticks && p[k + 2] == DrawStep::Traces);
        assert(p[p.len() - 1] == DrawStep::Overlays);
        if grid {
            assert(p[0] == DrawStep::Grid);
        } else {
            assert forall|i: int| 0 <= i < p.len() implies p[i] != DrawStep::Grid by {}
        }
        if has_title {
            assert(p[k + 3] == DrawStep::Title);
        } else {
            assert forall|i: int| 0 <= i < p.len() implies p[i] != DrawStep::Title by {}
        }
        if has_xlabel {
            assert(p[k + 3 + kt] == DrawStep::XLabel);
        } else {
            assert forall|i: int| 0 <= i < p.len() implies p[i] != DrawStep::XLabel by {}
        }
        if has_ylabel {
            assert(p[k + 3 + kt + kx] == DrawStep::YLabel);
        } else {
            assert forall|i: int| 0 <= i < p.len() implies p[i] != DrawStep::YLabel by {}
        }
    }
}

} // verus!
