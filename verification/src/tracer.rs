//! The renderable scene tree: a closed union of node kinds, each exposing
//! precomputed bounds, viewport pruning, and per-pixel tracing.  Pruning is
//! the acceleration step: a group that survives is flattened into a uniform
//! facet grid so that a pixel only scans the primitives whose footprints
//! overlap its cell.
//!
//! Every operation is mirrored by a spec function over a ghost model of the
//! tree (`TM`), where the children live in mathematical sequences; the
//! pruning and tracing laws at the end of this module are stated and proved
//! over that model.

use vstd::prelude::*;
use crate::bone_tracer::BoneTracer;
use crate::bone_tracer::TraceResult;
use crate::bone_tracer::bone_trace_spec;
use crate::bone_tracer::bone_wf;
use crate::bone_tracer::ray_ok;
use crate::bounds::Bounds;
use crate::bounds::union_spec;
use crate::color::Color;
use crate::fixed::FX_ONE;
use crate::fixed::clamp_i128;
use crate::fixed::fdiv;
use crate::fixed::floor_div_i128;
use crate::fixed::fx_div;
use crate::fixed::fx_div_spec;
use crate::fixed::fx_mul;
use crate::fixed::fx_mul_spec;
use crate::fixed::fx_sub;
use crate::fixed::lemma_mul_bounds_abs;
use crate::fixed::sat64;
use crate::rendering_parameters::RenderingParameters;
use crate::rendering_parameters::contains_spec;
use crate::rendering_parameters::scale_spec;
use crate::rendering_parameters::translate_spec;
use crate::vector::Point;
use crate::vector::Vector;
use crate::world_view::WorldView;
use crate::world_view::ray_spec;

verus! {

broadcast use vstd::std_specs::vec::group_vec_axioms;

pub enum Tracer {
    BoneT(BoneTracer),
    FacetT(FacetTracer),
    GroupT(GroupTracer),
    ScalingT(ScalingTracer),
    TranslatingT(TranslatingTracer),
    QuadrantT(QuadrantTracer),
}

pub struct GroupTracer {
    pub tracers: Vec<Tracer>,
    pub bounds: Bounds,
}

pub struct FacetTracer {
    pub root_count: usize,
    pub facets: Vec<GroupTracer>,
    pub bounds: Bounds,
    pub empty: bool,
}

pub struct ScalingTracer {
    pub source: Box<Tracer>,
    pub scale: i64,
    pub bounds: Bounds,
    pub world_view: WorldView,
}

pub struct TranslatingTracer {
    pub source: Box<Tracer>,
    pub shift: Point,
    pub bounds: Bounds,
    pub world_view: WorldView,
}

pub struct QuadrantTracer {
    pub source: Box<Tracer>,
    pub bounds: Bounds,
    pub x_end: i64,
    pub y_end: i64,
    pub world_view: WorldView,
}

/// The ghost model of a tracer tree: the same shape, with children held in
/// sequences so that pruning can be described as a mathematical function.
pub enum TM {
    BoneM(BoneTracer),
    GroupM(Seq<TM>, Bounds),
    FacetM(int, Seq<(Seq<TM>, Bounds)>, Bounds, bool),
    ScalingM(Box<TM>, i64, Bounds, WorldView),
    TranslatingM(Box<TM>, Point, Bounds, WorldView),
    QuadrantM(Box<TM>, i64, i64, Bounds, WorldView),
}

/// The model of a tracer.
pub open spec fn model(t: Tracer) -> TM
    decreases t,
{
    match t {
        Tracer::BoneT(b) => TM::BoneM(b),
        Tracer::GroupT(g) => TM::GroupM(models(g.tracers@), g.bounds),
        Tracer::FacetT(f) => TM::FacetM(
            f.root_count as int,
            cell_models(f.facets@),
            f.bounds,
            f.empty,
        ),
        Tracer::ScalingT(s) => TM::ScalingM(
            Box::new(model(*s.source)),
            s.scale,
            s.bounds,
            s.world_view,
        ),
        Tracer::TranslatingT(s) => TM::TranslatingM(
            Box::new(model(*s.source)),
            s.shift,
            s.bounds,
            s.world_view,
        ),
        Tracer::QuadrantT(q) => TM::QuadrantM(
            Box::new(model(*q.source)),
            q.x_end,
            q.y_end,
            q.bounds,
            q.world_view,
        ),
    }
}

/// The models of a sequence of tracers.
pub open spec fn models(ts: Seq<Tracer>) -> Seq<TM>
    decreases ts,
{
    if ts.len() == 0 {
        Seq::empty()
    } else {
        models(ts.drop_last()).push(model(ts.last()))
    }
}

/// The models of a facet grid's cells.
pub open spec fn cell_models(cells: Seq<GroupTracer>) -> Seq<(Seq<TM>, Bounds)>
    decreases cells,
{
    if cells.len() == 0 {
        Seq::empty()
    } else {
        cell_models(cells.drop_last()).push(
            (models(cells.last().tracers@), cells.last().bounds),
        )
    }
}

/// The models line up with the tracers, one to one.
pub proof fn lemma_models_index(ts: Seq<Tracer>)
    ensures
        models(ts).len() == ts.len(),
        forall|i: int| 0 <= i < ts.len() ==> models(ts)[i] == model(#[trigger] ts[i]),
    decreases ts,
{
    if ts.len() > 0 {
        lemma_models_index(ts.drop_last());
        assert forall|i: int| 0 <= i < ts.len() implies models(ts)[i] == model(
            #[trigger] ts[i],
        ) by {
            if i < ts.len() - 1 {
                assert(ts.drop_last()[i] == ts[i]);
                assert(models(ts.drop_last())[i] == model(ts.drop_last()[i]));
            } else {
                assert(ts.last() == ts[i]);
            }
        }
    }
}

/// The cell models line up with the cells, one to one.
pub proof fn lemma_cell_models_index(cells: Seq<GroupTracer>)
    ensures
        cell_models(cells).len() == cells.len(),
        forall|n: int|
            0 <= n < cells.len() ==> cell_models(cells)[n] == (models(
                (#[trigger] cells[n]).tracers@,
            ), cells[n].bounds),
    decreases cells,
{
    if cells.len() > 0 {
        lemma_cell_models_index(cells.drop_last());
        assert forall|n: int|
            0 <= n < cells.len() implies cell_models(cells)[n] == (models(
            (#[trigger] cells[n]).tracers@,
        ), cells[n].bounds) by {
            if n < cells.len() - 1 {
                assert(cells.drop_last()[n] == cells[n]);
                assert(cell_models(cells.drop_last())[n] == (models(
                    cells.drop_last()[n].tracers@,
                ), cells.drop_last()[n].bounds));
            } else {
                assert(cells.last() == cells[n]);
            }
        }
    }
}

/// The precomputed box of a model node.
pub open spec fn tm_bounds(m: TM) -> Bounds {
    match m {
        TM::BoneM(b) => b.bounds,
        TM::GroupM(_, b) => b,
        TM::FacetM(_, _, b, _) => b,
        TM::ScalingM(_, _, b, _) => b,
        TM::TranslatingM(_, _, b, _) => b,
        TM::QuadrantM(_, _, _, b, _) => b,
    }
}

/// A sound tree: every bone's precomputed data is consistent, every scale
/// is positive, every camera frame in it is well formed, and every facet
/// grid has a full square of cells.
pub open spec fn tm_wf(m: TM) -> bool
    decreases m, 2int,
{
    match m {
        TM::BoneM(b) => bone_wf(b),
        TM::GroupM(children, _) => tm_wf_seq(children),
        TM::FacetM(rc, cells, _, _) => {
            &&& 1 <= rc <= 0x100
            &&& cells.len() == rc * rc
            &&& tm_wf_cells(cells)
        },
        TM::ScalingM(src, scale, _, wv) => scale > 0 && wv.wf() && tm_wf(*src),
        TM::TranslatingM(src, _, _, wv) => wv.wf() && tm_wf(*src),
        TM::QuadrantM(src, _, _, _, wv) => wv.wf() && tm_wf(*src),
    }
}

/// Every tree in a sequence is sound.
pub open spec fn tm_wf_seq(children: Seq<TM>) -> bool
    decreases children, 1int,
{
    if children.len() == 0 {
        true
    } else {
        tm_wf_seq(children.drop_last()) && tm_wf(children.last())
    }
}

/// Every tree in every cell is sound.
pub open spec fn tm_wf_cells(cells: Seq<(Seq<TM>, Bounds)>) -> bool
    decreases cells, 1int,
{
    if cells.len() == 0 {
        true
    } else {
        tm_wf_cells(cells.drop_last()) && tm_wf_seq(cells.last().0)
    }
}

/// A sound sequence is sound at every index.
pub proof fn lemma_wf_seq_index(children: Seq<TM>)
    requires
        tm_wf_seq(children),
    ensures
        forall|k: int| 0 <= k < children.len() ==> tm_wf(#[trigger] children[k]),
    decreases children.len(),
{
    if children.len() > 0 {
        lemma_wf_seq_index(children.drop_last());
        assert forall|k: int| 0 <= k < children.len() implies tm_wf(
            #[trigger] children[k],
        ) by {
            if k < children.len() - 1 {
                assert(children.drop_last()[k] == children[k]);
            } else {
                assert(children.last() == children[k]);
            }
        }
    }
}

/// Soundness at every index makes a sound sequence.
pub proof fn lemma_wf_seq_all(children: Seq<TM>)
    requires
        forall|k: int| 0 <= k < children.len() ==> tm_wf(#[trigger] children[k]),
    ensures
        tm_wf_seq(children),
    decreases children.len(),
{
    if children.len() > 0 {
        assert forall|k: int| 0 <= k < children.drop_last().len() implies tm_wf(
            #[trigger] children.drop_last()[k],
        ) by {
            assert(children.drop_last()[k] == children[k]);
        }
        lemma_wf_seq_all(children.drop_last());
    }
}

/// A sound grid is sound in every cell.
pub proof fn lemma_wf_cells_index(cells: Seq<(Seq<TM>, Bounds)>)
    requires
        tm_wf_cells(cells),
    ensures
        forall|n: int| 0 <= n < cells.len() ==> tm_wf_seq((#[trigger] cells[n]).0),
    decreases cells.len(),
{
    if cells.len() > 0 {
        lemma_wf_cells_index(cells.drop_last());
        assert forall|n: int| 0 <= n < cells.len() implies tm_wf_seq(
            (#[trigger] cells[n]).0,
        ) by {
            if n < cells.len() - 1 {
                assert(cells.drop_last()[n] == cells[n]);
            } else {
                assert(cells.last() == cells[n]);
            }
        }
    }
}

/// The depth of the best hit so far (for the sorted early exit).
pub open spec fn best_z(r: TraceResult) -> int {
    match r {
        Some((z, _, _)) => z as int,
        None => 0,
    }
}

/// The scan over a group's children: children whose box misses the pixel
/// or lies wholly behind the camera are skipped; once a hit is in hand,
/// the scan stops at the first child whose whole depth range is farther.
pub open spec fn tm_scan(
    children: Seq<TM>,
    i: int,
    x: i64,
    y: i64,
    ray: Vector,
    best: TraceResult,
) -> TraceResult
    decreases children, (if children.len() >= i { children.len() - i } else { 0int }),
{
    if i < 0 || i >= children.len() {
        best
    } else {
        let c = children[i];
        let b = tm_bounds(c);
        if b.z_max <= 0 {
            tm_scan(children, i + 1, x, y, ray, best)
        } else if !(b.x_min <= x <= b.x_max && b.y_min <= y <= b.y_max) {
            tm_scan(children, i + 1, x, y, ray, best)
        } else if best is Some && !(b.z_min < best_z(best)) {
            best
        } else {
            let best2 = match tm_trace(c, x, y, ray) {
                Some((z, dir, col)) => if z > 0 && (best is None || (z as int) < best_z(best)) {
                    Some((z, dir, col))
                } else {
                    best
                },
                None => best,
            };
            tm_scan(children, i + 1, x, y, ray, best2)
        }
    }
}

/// One clamped grid coordinate: which column (or row) of the facet grid a
/// screen position falls in.
pub open spec fn facet_coord_spec(rc: int, lo: i64, d: i64, v: i64) -> int {
    let frac = fx_div_spec(sat64(v - lo), d as int);
    let scaled = sat64(rc * frac);
    let idx = fdiv(scaled, FX_ONE as int);
    if idx < 0 {
        0
    } else if idx > rc - 1 {
        rc - 1
    } else {
        idx
    }
}

/// The cell a screen position falls in.
pub open spec fn tm_cell_index(rc: int, b: Bounds, x: i64, y: i64) -> int {
    let dx = if b.empty { 0i64 } else { sat64(b.x_max - b.x_min) as i64 };
    let dy = if b.empty { 0i64 } else { sat64(b.y_max - b.y_min) as i64 };
    facet_coord_spec(rc, b.y_min, dy, y) * rc + facet_coord_spec(rc, b.x_min, dx, x)
}

/// The trace of a model node at a pixel.
pub open spec fn tm_trace(m: TM, x: i64, y: i64, ray: Vector) -> TraceResult
    decreases m, 0int,
{
    match m {
        TM::BoneM(b) => bone_trace_spec(b, ray),
        TM::GroupM(children, _) => tm_scan(children, 0, x, y, ray, None),
        TM::FacetM(rc, cells, b, _) => {
            let n = tm_cell_index(rc, b, x, y);
            if 0 <= n < cells.len() {
                tm_scan(cells[n].0, 0, x, y, ray, None)
            } else {
                None
            }
        },
        TM::ScalingM(src, scale, _, wv) => {
            let x2 = fx_div_spec(x as int, scale as int) as i64;
            let y2 = fx_div_spec(y as int, scale as int) as i64;
            let ray2 = ray_spec(wv, x2 as int, y2 as int);
            match tm_trace(*src, x2, y2, ray2) {
                Some((z, dir, col)) => Some(
                    (fx_mul_spec(z as int, scale as int) as i64, dir, col),
                ),
                None => None,
            }
        },
        TM::TranslatingM(src, shift, _, wv) => {
            let x2 = sat64(x - shift.x) as i64;
            let y2 = sat64(y - shift.y) as i64;
            let ray2 = ray_spec(wv, x2 as int, y2 as int);
            tm_trace(*src, x2, y2, ray2)
        },
        TM::QuadrantM(src, x_end, y_end, _, _) => {
            if 0 <= x < x_end && 0 <= y < y_end {
                tm_trace(*src, x, y, ray)
            } else {
                None
            }
        },
    }
}

/// Where a child sorts into a group: before the first child whose near
/// depth is greater.
pub open spec fn tm_insert_index(children: Seq<TM>, z: int) -> int
    decreases children.len(),
{
    if children.len() == 0 {
        0
    } else if tm_bounds(children[0]).z_min > z {
        0
    } else {
        1 + tm_insert_index(children.drop_first(), z)
    }
}

/// A group after one child is added: bounds widened, child inserted in
/// near-depth order.
pub open spec fn tm_group_add(g: (Seq<TM>, Bounds), m: TM) -> (Seq<TM>, Bounds) {
    let tb = tm_bounds(m);
    (g.0.insert(tm_insert_index(g.0, tb.z_min as int), m), union_spec(g.1, tb))
}

/// Whether grid cell `n` is overlapped by a box.
pub open spec fn tm_cell_covered(rc: int, fb: Bounds, tb: Bounds, n: int) -> bool {
    let dx = if fb.empty { 0i64 } else { sat64(fb.x_max - fb.x_min) as i64 };
    let dy = if fb.empty { 0i64 } else { sat64(fb.y_max - fb.y_min) as i64 };
    let min_x = facet_coord_spec(rc, fb.x_min, dx, tb.x_min);
    let max_x = facet_coord_spec(rc, fb.x_min, dx, tb.x_max);
    let min_y = facet_coord_spec(rc, fb.y_min, dy, tb.y_min);
    let max_y = facet_coord_spec(rc, fb.y_min, dy, tb.y_max);
    &&& min_x <= n % rc <= max_x
    &&& min_y <= n / rc <= max_y
}

/// A facet grid after a tracer is filed into every cell its box overlaps.
pub open spec fn tm_facet_add(f: TM, m: TM) -> TM
    recommends
        f is FacetM,
{
    match f {
        TM::FacetM(rc, cells, fb, _) => {
            let tb = tm_bounds(m);
            TM::FacetM(
                rc,
                Seq::new(
                    cells.len(),
                    |n: int|
                        if tm_cell_covered(rc, fb, tb, n) {
                            tm_group_add(cells[n], m)
                        } else {
                            cells[n]
                        },
                ),
                fb,
                false,
            )
        },
        _ => f,
    }
}

/// The flattening pass of pruning: group children recurse, every other
/// surviving child lands in the grid.
pub open spec fn tm_flatten(children: Seq<TM>, i: int, facet: TM, p: RenderingParameters) -> TM
    decreases children, (if children.len() >= i { children.len() - i } else { 0int }),
{
    if i < 0 || i >= children.len() {
        facet
    } else {
        let facet2 = match children[i] {
            TM::GroupM(inner, b) => {
                if contains_spec(p, b) {
                    tm_flatten(inner, 0, facet, p)
                } else {
                    facet
                }
            },
            other => {
                match tm_prune(other, p) {
                    Some(pruned) => tm_facet_add(facet, pruned),
                    None => facet,
                }
            },
        };
        tm_flatten(children, i + 1, facet2, p)
    }
}

/// Whether a facet model holds nothing.
pub open spec fn tm_facet_empty(f: TM) -> bool {
    match f {
        TM::FacetM(_, _, _, e) => e,
        _ => true,
    }
}

/// The grid a group is flattened into: sixteen cells a side over the
/// clipped viewport, keeping the group's depth range.
pub open spec fn tm_fresh_facet(g_bounds: Bounds, p: RenderingParameters) -> TM {
    let bb = if p.x_min == i64::MIN || p.x_max == i64::MAX || p.y_min == i64::MIN || p.y_max
        == i64::MAX {
        g_bounds
    } else {
        Bounds {
            x_min: p.x_min,
            x_max: p.x_max,
            y_min: p.y_min,
            y_max: p.y_max,
            z_min: g_bounds.z_min,
            z_max: g_bounds.z_max,
            empty: false,
        }
    };
    TM::FacetM(16, Seq::new(256, |n: int| (Seq::<TM>::empty(), crate::bounds::empty_spec())), bb, true)
}

/// Viewport pruning over the model: a tree whose box misses the viewport
/// is discarded; a surviving group is flattened into a fresh facet grid;
/// decorators prune their child in the child's frame and rebuild.
pub open spec fn tm_prune(m: TM, p: RenderingParameters) -> Option<TM>
    decreases m, 1int,
{
    match m {
        TM::BoneM(_) => if contains_spec(p, tm_bounds(m)) {
            Some(m)
        } else {
            None
        },
        TM::FacetM(_, _, _, _) => if contains_spec(p, tm_bounds(m)) {
            Some(m)
        } else {
            None
        },
        TM::GroupM(children, b) => {
            if !contains_spec(p, b) {
                None
            } else {
                let result = tm_flatten(children, 0, tm_fresh_facet(b, p), p);
                if tm_facet_empty(result) {
                    None
                } else {
                    Some(result)
                }
            }
        },
        TM::ScalingM(src, scale, _, wv) => {
            match tm_prune(*src, scale_spec(p, scale)) {
                None => None,
                Some(pruned) => Some(
                    TM::ScalingM(
                        Box::new(pruned),
                        scale,
                        tm_scale_bounds(tm_bounds(pruned), scale),
                        wv,
                    ),
                ),
            }
        },
        TM::TranslatingM(src, shift, _, wv) => {
            match tm_prune(*src, translate_spec(p, shift.x, shift.y)) {
                None => None,
                Some(pruned) => Some(
                    TM::TranslatingM(
                        Box::new(pruned),
                        shift,
                        tm_shift_bounds(tm_bounds(pruned), shift),
                        wv,
                    ),
                ),
            }
        },
        TM::QuadrantM(src, x_end, y_end, _, wv) => {
            match tm_prune(*src, p) {
                None => None,
                Some(pruned) => Some(
                    TM::QuadrantM(Box::new(pruned), x_end, y_end, tm_bounds(pruned), wv),
                ),
            }
        },
    }
}

/// A child's box, expressed in the scaled parent frame.
pub open spec fn tm_scale_bounds(b: Bounds, scale: i64) -> Bounds {
    if b.empty {
        b
    } else {
        Bounds {
            x_min: fx_mul_spec(b.x_min as int, scale as int) as i64,
            x_max: fx_mul_spec(b.x_max as int, scale as int) as i64,
            y_min: fx_mul_spec(b.y_min as int, scale as int) as i64,
            y_max: fx_mul_spec(b.y_max as int, scale as int) as i64,
            z_min: b.z_min,
            z_max: b.z_max,
            empty: false,
        }
    }
}

/// A child's box, expressed in the shifted parent frame.
pub open spec fn tm_shift_bounds(b: Bounds, shift: Point) -> Bounds {
    if b.empty {
        b
    } else {
        Bounds {
            x_min: sat64(b.x_min + shift.x) as i64,
            x_max: sat64(b.x_max + shift.x) as i64,
            y_min: sat64(b.y_min + shift.y) as i64,
            y_max: sat64(b.y_max + shift.y) as i64,
            z_min: b.z_min,
            z_max: b.z_max,
            empty: false,
        }
    }
}


impl Clone for Tracer {
    /// A deep copy whose model equals the original's.
    fn clone(&self) -> (res: Self)
        ensures
            model(res) == model(*self),
        decreases *self,
    {
        match self {
            Tracer::BoneT(b) => Tracer::BoneT(*b),
            Tracer::GroupT(g) => Tracer::GroupT(g.clone()),
            Tracer::FacetT(f) => Tracer::FacetT(f.clone()),
            Tracer::ScalingT(t) => Tracer::ScalingT(
                ScalingTracer {
                    source: Box::new((*t.source).clone()),
                    scale: t.scale,
                    bounds: t.bounds,
                    world_view: t.world_view,
                },
            ),
            Tracer::TranslatingT(t) => Tracer::TranslatingT(
                TranslatingTracer {
                    source: Box::new((*t.source).clone()),
                    shift: t.shift,
                    bounds: t.bounds,
                    world_view: t.world_view,
                },
            ),
            Tracer::QuadrantT(t) => Tracer::QuadrantT(
                QuadrantTracer {
                    source: Box::new((*t.source).clone()),
                    bounds: t.bounds,
                    x_end: t.x_end,
                    y_end: t.y_end,
                    world_view: t.world_view,
                },
            ),
        }
    }
}

impl Clone for GroupTracer {
    /// A deep copy whose model equals the original's.
    fn clone(&self) -> (res: Self)
        ensures
            models(res.tracers@) == models(self.tracers@),
            res.bounds == self.bounds,
        decreases *self,
    {
        let mut tracers: Vec<Tracer> = Vec::new();
        for i in 0..self.tracers.len()
            invariant
                tracers@.len() == i,
                forall|m: int|
                    0 <= m < i ==> models(tracers@)[m] == models(self.tracers@)[m],
                models(tracers@).len() == i,
        {
            let ghost pre = tracers@;
            let c = self.tracers[i].clone();
            tracers.push(c);
            proof {
                lemma_models_push(pre, c);
                lemma_models_index(self.tracers@);
                lemma_models_index(pre);
                assert forall|m: int|
                    0 <= m < i + 1 implies models(tracers@)[m] == models(self.tracers@)[m] by {
                    lemma_models_index(tracers@);
                    if m < i {
                        assert(models(pre)[m] == models(tracers@)[m]);
                    } else {
                        assert(models(tracers@)[m] == model(c));
                        assert(models(self.tracers@)[m] == model(self.tracers@[m]));
                    }
                }
            }
        }
        proof {
            lemma_models_index(tracers@);
            lemma_models_index(self.tracers@);
            assert(models(tracers@) =~= models(self.tracers@));
        }
        GroupTracer { tracers, bounds: self.bounds }
    }
}

impl Clone for FacetTracer {
    /// A deep copy whose model equals the original's.
    fn clone(&self) -> (res: Self)
        ensures
            model(Tracer::FacetT(res)) == model(Tracer::FacetT(*self)),
            res.root_count == self.root_count,
            res.bounds == self.bounds,
            res.empty == self.empty,
            res.facets@.len() == self.facets@.len(),
        decreases *self,
    {
        let mut facets: Vec<GroupTracer> = Vec::new();
        for n in 0..self.facets.len()
            invariant
                facets@.len() == n,
                forall|m: int|
                    0 <= m < n ==> (models((#[trigger] facets@[m]).tracers@),
                    facets@[m].bounds) == (models(self.facets@[m].tracers@),
                    self.facets@[m].bounds),
        {
            let c = self.facets[n].clone();
            facets.push(c);
        }
        proof {
            lemma_cell_models_index(facets@);
            lemma_cell_models_index(self.facets@);
            assert forall|n: int|
                0 <= n < facets@.len() implies cell_models(facets@)[n] == cell_models(
                self.facets@,
            )[n] by {
                assert(cell_models(facets@)[n] == (models(facets@[n].tracers@),
                facets@[n].bounds));
                assert(cell_models(self.facets@)[n] == (models(self.facets@[n].tracers@),
                self.facets@[n].bounds));
            }
            assert(cell_models(facets@) =~= cell_models(self.facets@));
        }
        FacetTracer {
            root_count: self.root_count,
            facets,
            bounds: self.bounds,
            empty: self.empty,
        }
    }
}

/// A sound group's children are sound.
proof fn lemma_group_wf_children(children: Seq<TM>, b: Bounds)
    requires
        tm_wf(TM::GroupM(children, b)),
    ensures
        forall|k: int| 0 <= k < children.len() ==> tm_wf(#[trigger] children[k]),
{
    lemma_wf_seq_index(children);
}

/// Pushing a tracer pushes its model.
proof fn lemma_models_push(ts: Seq<Tracer>, t: Tracer)
    ensures
        models(ts.push(t)) == models(ts).push(model(t)),
{
    assert(ts.push(t).drop_last() =~= ts);
    assert(ts.push(t).last() == t);
}

impl Tracer {
    /// The node's precomputed box.
    pub fn bounds(&self) -> (r: Bounds)
        ensures
            r == tm_bounds(model(*self)),
    {
        match self {
            Tracer::BoneT(t) => t.bounds,
            Tracer::FacetT(t) => t.bounds,
            Tracer::GroupT(t) => t.bounds,
            Tracer::ScalingT(t) => t.bounds,
            Tracer::TranslatingT(t) => t.bounds,
            Tracer::QuadrantT(t) => t.bounds,
        }
    }

    /// Resolve the nearest hit at a pixel.
    pub fn trace(&self, x: i64, y: i64, ray: Vector) -> (r: TraceResult)
        requires
            tm_wf(model(*self)),
            ray_ok(ray),
        ensures
            r == tm_trace(model(*self), x, y, ray),
        decreases *self, 2int,
    {
        match self {
            Tracer::BoneT(t) => t.trace(x, y, ray),
            Tracer::FacetT(t) => t.trace(x, y, ray),
            Tracer::GroupT(t) => t.trace(x, y, ray),
            Tracer::ScalingT(t) => t.trace(x, y, ray),
            Tracer::TranslatingT(t) => t.trace(x, y, ray),
            Tracer::QuadrantT(t) => t.trace(x, y, ray),
        }
    }

    /// Prune against a viewport.
    pub fn prune(&self, p: &RenderingParameters) -> (r: Option<Tracer>)
        ensures
            option_model(r) == tm_prune(model(*self), *p),
        decreases *self, 3int,
    {
        match self {
            Tracer::BoneT(t) => t.prune(p),
            Tracer::FacetT(t) => t.prune(p),
            Tracer::GroupT(t) => t.prune(p),
            Tracer::ScalingT(t) => t.prune(p),
            Tracer::TranslatingT(t) => t.prune(p),
            Tracer::QuadrantT(t) => t.prune(p),
        }
    }
}

/// The model of an optional tracer.
pub open spec fn option_model(r: Option<Tracer>) -> Option<TM> {
    match r {
        Some(t) => Some(model(t)),
        None => None,
    }
}

/// Keep a leaf only when its box reaches into the viewport.
pub fn prune_bounds(tracer: Tracer, p: &RenderingParameters) -> (r: Option<Tracer>)
    ensures
        r == (if contains_spec(*p, tm_bounds(model(tracer))) {
            Some(tracer)
        } else {
            None::<Tracer>
        }),
{
    let b = tracer.bounds();
    if p.contains(&b) {
        Some(tracer)
    } else {
        None
    }
}

impl BoneTracer {
    /// Keep the capsule only when its box reaches into the viewport.
    pub fn prune(&self, p: &RenderingParameters) -> (r: Option<Tracer>)
        ensures
            option_model(r) == tm_prune(model(Tracer::BoneT(*self)), *p),
    {
        prune_bounds(Tracer::BoneT(*self), p)
    }
}

impl GroupTracer {
    /// An empty composite.
    pub fn new() -> (r: Self)
        ensures
            r.tracers@.len() == 0,
            r.bounds == crate::bounds::empty_spec(),
            model(Tracer::GroupT(r)) == TM::GroupM(Seq::<TM>::empty(), crate::bounds::empty_spec()),
    {
        let r = GroupTracer { tracers: Vec::new(), bounds: Bounds::empty() };
        proof {
            assert(models(r.tracers@) =~= Seq::<TM>::empty());
        }
        r
    }

    /// Add a child, keeping the children ordered by their near depth and
    /// widening the group's box.
    pub fn add(&mut self, tracer: Tracer)
        ensures
            ({
                let (ms, b) = tm_group_add(
                    (models(old(self).tracers@), old(self).bounds),
                    model(tracer),
                );
                models(final(self).tracers@) == ms && final(self).bounds == b
            }),
            final(self).tracers@.len() == old(self).tracers@.len() + 1,
            forall|i: int|
                0 <= i < final(self).tracers@.len() ==> (#[trigger] final(self).tracers@[i])
                    == tracer || exists|j: int|
                    0 <= j < old(self).tracers@.len() && final(self).tracers@[i] == old(
                        self,
                    ).tracers@[j],
    {
        let b = tracer.bounds();
        let z = b.z_min;
        let len = self.tracers.len();
        let mut idx: usize = 0;
        let mut stop = false;
        while idx < len && !stop
            invariant
                0 <= idx <= len,
                len == self.tracers@.len(),
                *self == *old(self),
                z == tm_bounds(model(tracer)).z_min,
                forall|j: int|
                    0 <= j < idx ==> tm_bounds(model(#[trigger] self.tracers@[j])).z_min <= z,
                stop ==> idx < len && tm_bounds(model(self.tracers@[idx as int])).z_min > z,
            decreases len - idx, (if stop { 0int } else { 1int }),
        {
            let cb = self.tracers[idx].bounds();
            if cb.z_min <= z {
                idx = idx + 1;
            } else {
                stop = true;
            }
        }
        proof {
            lemma_models_index(self.tracers@);
            assert forall|j: int| 0 <= j < idx implies tm_bounds(
                #[trigger] models(self.tracers@)[j],
            ).z_min <= z by {
                assert(models(self.tracers@)[j] == model(self.tracers@[j]));
            }
            if idx < len {
                assert(models(self.tracers@)[idx as int] == model(
                    self.tracers@[idx as int],
                ));
            }
            lemma_insert_index_char(models(self.tracers@), z as int, idx as int);
        }
        self.bounds = self.bounds.union(&b);
        self.tracers.insert(idx, tracer);
        proof {
            lemma_models_insert(old(self).tracers@, idx as int, tracer);
        }
    }

    /// Scan the children in order for the nearest hit at a pixel.
    pub fn trace(&self, x: i64, y: i64, ray: Vector) -> (r: TraceResult)
        requires
            tm_wf(model(Tracer::GroupT(*self))),
            ray_ok(ray),
        ensures
            r == tm_scan(models(self.tracers@), 0, x, y, ray, None),
        decreases *self, 1int,
    {
        let ghost ms = models(self.tracers@);
        proof {
            lemma_models_index(self.tracers@);
        }
        let mut best: TraceResult = None;
        let mut done = false;
        let mut i: usize = 0;
        let len = self.tracers.len();
        while i < len && !done
            invariant
                tm_wf(model(Tracer::GroupT(*self))),
                ray_ok(ray),
                ms == models(self.tracers@),
                ms.len() == self.tracers@.len(),
                forall|k: int| 0 <= k < ms.len() ==> ms[k] == model(#[trigger] self.tracers@[k]),
                len == self.tracers@.len(),
                0 <= i <= len,
                (if done {
                    best
                } else {
                    tm_scan(ms, i as int, x, y, ray, best)
                }) == tm_scan(ms, 0, x, y, ray, None),
            decreases len - i, (if done { 0int } else { 1int }),
        {
            let child = &self.tracers[i];
            let b = child.bounds();
            if b.z_max <= 0 {
                i = i + 1;
            } else if !b.contains_xy(x, y) {
                i = i + 1;
            } else {
                let best_is_some = match best {
                    Some(_) => true,
                    None => false,
                };
                let bz: i64 = match best {
                    Some((z, _, _)) => z,
                    None => 0,
                };
                if best_is_some && !b.contains_points_in_front_of_z(bz) {
                    done = true;
                } else {
                    proof {
                        assert(model(Tracer::GroupT(*self)) == TM::GroupM(
                            models(self.tracers@),
                            self.bounds,
                        ));
                        assert(tm_wf(TM::GroupM(ms, self.bounds)));
                        lemma_group_wf_children(ms, self.bounds);
                        assert(tm_wf(ms[i as int]));
                        assert(ms[i as int] == model(self.tracers@[i as int]));
                    }
                    let res = child.trace(x, y, ray);
                    match res {
                        Some((z, dir, col)) => {
                            if z > 0 && (!best_is_some || z < bz) {
                                best = Some((z, dir, col));
                            }
                        },
                        None => {},
                    }
                    i = i + 1;
                }
            }
        }
        best
    }

    /// Recursively file the group's surviving children into a facet grid.
    pub fn flatten_into_facets(&self, p: &RenderingParameters, facet: &mut FacetTracer)
        requires
            old(facet).root_count == 16,
            old(facet).facets@.len() == 256,
        ensures
            model(Tracer::FacetT(*final(facet))) == (if contains_spec(*p, self.bounds) {
                tm_flatten(models(self.tracers@), 0, model(Tracer::FacetT(*old(facet))), *p)
            } else {
                model(Tracer::FacetT(*old(facet)))
            }),
            final(facet).root_count == old(facet).root_count,
            final(facet).facets@.len() == old(facet).facets@.len(),
            final(facet).bounds == old(facet).bounds,
        decreases *self, 1int,
    {
        if !p.contains(&self.bounds) {
            return ;
        }
        let ghost ms = models(self.tracers@);
        proof {
            lemma_models_index(self.tracers@);
        }
        let len = self.tracers.len();
        let mut i: usize = 0;
        while i < len
            invariant
                ms == models(self.tracers@),
                ms.len() == self.tracers@.len(),
                forall|k: int| 0 <= k < ms.len() ==> ms[k] == model(#[trigger] self.tracers@[k]),
                len == self.tracers@.len(),
                0 <= i <= len,
                facet.root_count == 16,
                facet.facets@.len() == 256,
                facet.bounds == old(facet).bounds,
                tm_flatten(ms, i as int, model(Tracer::FacetT(*facet)), *p) == tm_flatten(
                    ms,
                    0,
                    model(Tracer::FacetT(*old(facet))),
                    *p,
                ),
            decreases len - i,
        {
            let child = &self.tracers[i];
            match child {
                Tracer::GroupT(g) => {
                    g.flatten_into_facets(p, facet);
                },
                _ => {
                    let pruned = child.prune(p);
                    match pruned {
                        Some(pr) => {
                            facet.add(pr);
                        },
                        None => {},
                    }
                },
            }
            i = i + 1;
        }
    }

    /// Prune the whole group: a group out of view is dropped outright;
    /// otherwise its surviving leaves are flattened into a facet grid over
    /// the clipped viewport.
    pub fn prune(&self, p: &RenderingParameters) -> (r: Option<Tracer>)
        ensures
            option_model(r) == tm_prune(model(Tracer::GroupT(*self)), *p),
        decreases *self, 2int,
    {
        if !p.contains(&self.bounds) {
            return None;
        }
        let bb: Bounds = if p.any_infinite() {
            self.bounds
        } else {
            Bounds {
                x_min: p.x_min,
                x_max: p.x_max,
                y_min: p.y_min,
                y_max: p.y_max,
                z_min: self.bounds.z_min,
                z_max: self.bounds.z_max,
                empty: false,
            }
        };
        let mut result = FacetTracer::new(&bb, 16);
        self.flatten_into_facets(p, &mut result);
        if result.is_empty() {
            return None;
        }
        Some(Tracer::FacetT(result))
    }
}

/// A characterization pins the insertion index down.
proof fn lemma_insert_index_char(ms: Seq<TM>, z: int, idx: int)
    requires
        0 <= idx <= ms.len(),
        forall|j: int| 0 <= j < idx ==> tm_bounds(#[trigger] ms[j]).z_min <= z,
        idx < ms.len() ==> tm_bounds(ms[idx]).z_min > z,
    ensures
        tm_insert_index(ms, z) == idx,
    decreases ms.len(),
{
    if ms.len() > 0 && idx > 0 {
        assert(tm_bounds(ms[0]).z_min <= z);
        assert forall|j: int| 0 <= j < idx - 1 implies tm_bounds(
            #[trigger] ms.drop_first()[j],
        ).z_min <= z by {
            assert(ms.drop_first()[j] == ms[j + 1]);
        }
        if idx - 1 < ms.drop_first().len() {
            assert(ms.drop_first()[idx - 1] == ms[idx]);
        }
        lemma_insert_index_char(ms.drop_first(), z, idx - 1);
    }
}

/// Inserting into the tracers inserts the model.
proof fn lemma_models_insert(ts: Seq<Tracer>, idx: int, t: Tracer)
    requires
        0 <= idx <= ts.len(),
    ensures
        models(ts.insert(idx, t)) == models(ts).insert(idx, model(t)),
{
    lemma_models_index(ts);
    lemma_models_index(ts.insert(idx, t));
    assert forall|k: int|
        0 <= k < ts.len() + 1 implies models(ts.insert(idx, t))[k] == models(ts).insert(
        idx,
        model(t),
    )[k] by {
        if k < idx {
            assert(ts.insert(idx, t)[k] == ts[k]);
        } else if k == idx {
            assert(ts.insert(idx, t)[k] == t);
        } else {
            assert(ts.insert(idx, t)[k] == ts[k - 1]);
        }
    }
    assert(models(ts.insert(idx, t)) =~= models(ts).insert(idx, model(t)));
}

impl FacetTracer {
    /// A fresh, empty grid over a box.
    pub fn new(bounds: &Bounds, root_count: usize) -> (r: Self)
        requires
            root_count == 16,
        ensures
            model(Tracer::FacetT(r)) == TM::FacetM(
                16,
                Seq::new(256, |n: int| (Seq::<TM>::empty(), crate::bounds::empty_spec())),
                *bounds,
                true,
            ),
            r.root_count == 16,
            r.facets@.len() == 256,
            r.bounds == *bounds,
            r.empty,
    {
        let mut facets: Vec<GroupTracer> = Vec::new();
        for n in 0..256usize
            invariant
                facets@.len() == n,
                forall|m: int|
                    0 <= m < n ==> (#[trigger] facets@[m]).tracers@.len() == 0 && facets@[m].bounds
                        == crate::bounds::empty_spec(),
        {
            facets.push(GroupTracer::new());
        }
        let r = FacetTracer { root_count, facets, bounds: *bounds, empty: true };
        proof {
            lemma_cell_models_index(r.facets@);
            assert forall|n: int| 0 <= n < 256 implies cell_models(r.facets@)[n] == (
            Seq::<TM>::empty(), crate::bounds::empty_spec()) by {
                assert(models(r.facets@[n].tracers@) =~= Seq::<TM>::empty());
            }
            assert(cell_models(r.facets@) =~= Seq::new(
                256,
                |n: int| (Seq::<TM>::empty(), crate::bounds::empty_spec()),
            ));
        }
        r
    }

    /// Whether nothing has been filed into the grid.
    pub fn is_empty(&self) -> (r: bool)
        ensures
            r == self.empty,
    {
        self.empty
    }

    /// File a tracer into every cell its box overlaps.
    pub fn add(&mut self, tracer: Tracer)
        requires
            1 <= old(self).root_count <= 0x100,
        ensures
            model(Tracer::FacetT(*final(self))) == tm_facet_add(
                model(Tracer::FacetT(*old(self))),
                model(tracer),
            ),
            final(self).root_count == old(self).root_count,
            final(self).facets@.len() == old(self).facets@.len(),
            final(self).bounds == old(self).bounds,
    {
        self.empty = false;
        let tb = tracer.bounds();
        let rc = self.root_count;
        let dx = self.bounds.dx();
        let dy = self.bounds.dy();
        let min_x = facet_coord(rc, self.bounds.x_min, dx, tb.x_min);
        let max_x = facet_coord(rc, self.bounds.x_min, dx, tb.x_max);
        let min_y = facet_coord(rc, self.bounds.y_min, dy, tb.y_min);
        let max_y = facet_coord(rc, self.bounds.y_min, dy, tb.y_max);
        let len = self.facets.len();
        let ghost mid = *self;
        let mut n: usize = 0;
        while n < len
            invariant
                0 <= n <= len,
                self.root_count == old(self).root_count,
                1 <= rc <= 0x100,
                rc == self.root_count,
                self.bounds == old(self).bounds,
                self.empty == false,
                len == self.facets@.len(),
                len == old(self).facets@.len(),
                min_x as int == facet_coord_spec(
                    self.root_count as int,
                    self.bounds.x_min,
                    (if self.bounds.empty { 0i64 } else { sat64(self.bounds.x_max - self.bounds.x_min) as i64 }),
                    tm_bounds(model(tracer)).x_min,
                ),
                max_x as int == facet_coord_spec(
                    self.root_count as int,
                    self.bounds.x_min,
                    (if self.bounds.empty { 0i64 } else { sat64(self.bounds.x_max - self.bounds.x_min) as i64 }),
                    tm_bounds(model(tracer)).x_max,
                ),
                min_y as int == facet_coord_spec(
                    self.root_count as int,
                    self.bounds.y_min,
                    (if self.bounds.empty { 0i64 } else { sat64(self.bounds.y_max - self.bounds.y_min) as i64 }),
                    tm_bounds(model(tracer)).y_min,
                ),
                max_y as int == facet_coord_spec(
                    self.root_count as int,
                    self.bounds.y_min,
                    (if self.bounds.empty { 0i64 } else { sat64(self.bounds.y_max - self.bounds.y_min) as i64 }),
                    tm_bounds(model(tracer)).y_max,
                ),
                forall|m: int|
                    n <= m < len ==> #[trigger] self.facets@[m] == old(self).facets@[m],
                forall|m: int|
                    0 <= m < n ==> (models((#[trigger] self.facets@[m]).tracers@),
                    self.facets@[m].bounds) == (if tm_cell_covered(
                        old(self).root_count as int,
                        old(self).bounds,
                        tm_bounds(model(tracer)),
                        m,
                    ) {
                        tm_group_add(
                            (models(old(self).facets@[m].tracers@), old(self).facets@[m].bounds),
                            model(tracer),
                        )
                    } else {
                        (models(old(self).facets@[m].tracers@), old(self).facets@[m].bounds)
                    }),
            decreases len - n,
        {
            let col = n % rc;
            let row = n / rc;
            if min_x <= col && col <= max_x && min_y <= row && row <= max_y {
                let t2 = tracer.clone();
                let mut cell = self.facets[n].clone();
                cell.add(t2);
                self.facets[n] = cell;
            }
            n = n + 1;
        }
        proof {
            lemma_facet_add_cells(*old(self), *self, tracer);
        }
    }

    /// The cell a pixel falls in, delegated to.
    pub fn trace(&self, x: i64, y: i64, ray: Vector) -> (r: TraceResult)
        requires
            tm_wf(model(Tracer::FacetT(*self))),
            ray_ok(ray),
        ensures
            r == tm_trace(model(Tracer::FacetT(*self)), x, y, ray),
        decreases *self, 1int,
    {
        let rc = self.root_count;
        let dx = self.bounds.dx();
        let dy = self.bounds.dy();
        let cx = facet_coord(rc, self.bounds.x_min, dx, x);
        let cy = facet_coord(rc, self.bounds.y_min, dy, y);
        proof {
            lemma_mul_bounds_abs(cy as int, rc as int, 0x100, 0x100);
            assert(0 <= cy as int * rc as int && cy as int * rc as int + cx < rc * rc
                <= 0x10000) by (nonlinear_arith)
                requires
                    0 <= cx < rc,
                    0 <= cy < rc,
                    rc <= 0x100,
            ;
            lemma_cell_models_index(self.facets@);
        }
        let n = cy * rc + cx;
        let cell = &self.facets[n];
        proof {
            assert(tm_wf(model(Tracer::GroupT(*cell)))) by {
                lemma_wf_cells_index(cell_models(self.facets@));
                assert(cell_models(self.facets@)[n as int].0 == models(cell.tracers@));
            }
        }
        cell.trace(x, y, ray)
    }

    /// Keep the grid only when its box reaches into the viewport.
    pub fn prune(&self, p: &RenderingParameters) -> (r: Option<Tracer>)
        ensures
            option_model(r) == tm_prune(model(Tracer::FacetT(*self)), *p),
    {
        let b = self.bounds;
        if p.contains(&b) {
            Some(Tracer::FacetT(self.clone()))
        } else {
            None
        }
    }
}

/// The per-cell postcondition of the fill loop yields the facet-add model.
proof fn lemma_facet_add_cells(pre: FacetTracer, post: FacetTracer, t: Tracer)
    requires
        pre.root_count >= 1,
        post.root_count == pre.root_count,
        post.bounds == pre.bounds,
        post.empty == false,
        post.facets@.len() == pre.facets@.len(),
        forall|m: int|
            0 <= m < post.facets@.len() ==> (models((#[trigger] post.facets@[m]).tracers@),
            post.facets@[m].bounds) == (if tm_cell_covered(
                pre.root_count as int,
                pre.bounds,
                tm_bounds(model(t)),
                m,
            ) {
                tm_group_add(
                    (models(pre.facets@[m].tracers@), pre.facets@[m].bounds),
                    model(t),
                )
            } else {
                (models(pre.facets@[m].tracers@), pre.facets@[m].bounds)
            }),
    ensures
        model(Tracer::FacetT(post)) == tm_facet_add(model(Tracer::FacetT(pre)), model(t)),
{
    lemma_cell_models_index(pre.facets@);
    lemma_cell_models_index(post.facets@);
    let target = Seq::new(
        cell_models(pre.facets@).len(),
        |n: int|
            if tm_cell_covered(pre.root_count as int, pre.bounds, tm_bounds(model(t)), n) {
                tm_group_add(cell_models(pre.facets@)[n], model(t))
            } else {
                cell_models(pre.facets@)[n]
            },
    );
    assert forall|n: int|
        0 <= n < cell_models(post.facets@).len() implies cell_models(post.facets@)[n]
        == target[n] by {
        assert(cell_models(post.facets@)[n] == (models(post.facets@[n].tracers@),
        post.facets@[n].bounds));
        assert(cell_models(pre.facets@)[n] == (models(pre.facets@[n].tracers@),
        pre.facets@[n].bounds));
    }
    assert(cell_models(post.facets@) =~= target);
}

/// One clamped grid coordinate.
fn facet_coord(rc: usize, lo: i64, d: i64, v: i64) -> (r: usize)
    requires
        1 <= rc <= 0x100,
    ensures
        r as int == facet_coord_spec(rc as int, lo, d, v),
        r < rc,
{
    let frac = fx_div(fx_sub(v, lo), d);
    proof {
        lemma_mul_bounds_abs(rc as int, frac as int, 0x100, 0x8000000000000000);
    }
    let scaled = clamp_i128(rc as i128 * frac as i128);
    let idx = floor_div_i128(scaled as i128, 65536);
    if idx < 0 {
        0
    } else if idx > rc as i128 - 1 {
        rc - 1
    } else {
        idx as usize
    }
}

impl ScalingTracer {
    /// Wrap a child with a uniform scale; the stored box is the child's,
    /// rescaled into the parent frame.
    pub fn new(world_view: &WorldView, source: Tracer, scale: i64) -> (r: Self)
        ensures
            model(Tracer::ScalingT(r)) == TM::ScalingM(
                Box::new(model(source)),
                scale,
                tm_scale_bounds(tm_bounds(model(source)), scale),
                *world_view,
            ),
    {
        let sb = source.bounds();
        let bounds = if sb.empty {
            sb
        } else {
            Bounds {
                x_min: fx_mul(sb.x_min, scale),
                x_max: fx_mul(sb.x_max, scale),
                y_min: fx_mul(sb.y_min, scale),
                y_max: fx_mul(sb.y_max, scale),
                z_min: sb.z_min,
                z_max: sb.z_max,
                empty: false,
            }
        };
        ScalingTracer { source: Box::new(source), scale, bounds, world_view: *world_view }
    }

    /// Prune the child in the child's frame and rebuild.
    pub fn prune(&self, p: &RenderingParameters) -> (r: Option<Tracer>)
        ensures
            option_model(r) == tm_prune(model(Tracer::ScalingT(*self)), *p),
        decreases *self, 1int,
    {
        let scaled = p.scale(self.scale);
        match self.source.prune(&scaled) {
            None => None,
            Some(pruned) => Some(
                Tracer::ScalingT(ScalingTracer::new(&self.world_view, pruned, self.scale)),
            ),
        }
    }

    /// Trace through the scale: the pixel is mapped into the child frame,
    /// the ray is rebuilt there, and the hit depth is scaled back.
    pub fn trace(&self, x: i64, y: i64, _ray: Vector) -> (r: TraceResult)
        requires
            tm_wf(model(Tracer::ScalingT(*self))),
        ensures
            r == tm_trace(model(Tracer::ScalingT(*self)), x, y, _ray),
        decreases *self, 1int,
    {
        let x2 = fx_div(x, self.scale);
        let y2 = fx_div(y, self.scale);
        let ray = self.world_view.ray(x2, y2);
        proof {
            crate::world_view::lemma_ray_ok(self.world_view, x2 as int, y2 as int);
        }
        match self.source.trace(x2, y2, ray) {
            Some((z, dir, col)) => Some((fx_mul(z, self.scale), dir, col)),
            None => None,
        }
    }
}

impl TranslatingTracer {
    /// Wrap a child with a screen shift; the stored box is the child's,
    /// shifted into the parent frame.
    pub fn new(world_view: &WorldView, source: Tracer, shift: Point) -> (r: Self)
        ensures
            model(Tracer::TranslatingT(r)) == TM::TranslatingM(
                Box::new(model(source)),
                shift,
                tm_shift_bounds(tm_bounds(model(source)), shift),
                *world_view,
            ),
    {
        let sb = source.bounds();
        let bounds = if sb.empty {
            sb
        } else {
            Bounds {
                x_min: crate::fixed::fx_add(sb.x_min, shift.x),
                x_max: crate::fixed::fx_add(sb.x_max, shift.x),
                y_min: crate::fixed::fx_add(sb.y_min, shift.y),
                y_max: crate::fixed::fx_add(sb.y_max, shift.y),
                z_min: sb.z_min,
                z_max: sb.z_max,
                empty: false,
            }
        };
        TranslatingTracer { source: Box::new(source), shift, bounds, world_view: *world_view }
    }

    /// Prune the child in the shifted frame and rebuild.
    pub fn prune(&self, p: &RenderingParameters) -> (r: Option<Tracer>)
        ensures
            option_model(r) == tm_prune(model(Tracer::TranslatingT(*self)), *p),
        decreases *self, 1int,
    {
        let shifted = p.translated(self.shift.x, self.shift.y);
        match self.source.prune(&shifted) {
            None => None,
            Some(pruned) => Some(
                Tracer::TranslatingT(
                    TranslatingTracer::new(&self.world_view, pruned, self.shift),
                ),
            ),
        }
    }

    /// Trace through the shift.
    pub fn trace(&self, x: i64, y: i64, _ray: Vector) -> (r: TraceResult)
        requires
            tm_wf(model(Tracer::TranslatingT(*self))),
        ensures
            r == tm_trace(model(Tracer::TranslatingT(*self)), x, y, _ray),
        decreases *self, 1int,
    {
        let x2 = fx_sub(x, self.shift.x);
        let y2 = fx_sub(y, self.shift.y);
        let ray = self.world_view.ray(x2, y2);
        proof {
            crate::world_view::lemma_ray_ok(self.world_view, x2 as int, y2 as int);
        }
        self.source.trace(x2, y2, ray)
    }
}

impl QuadrantTracer {
    /// Restrict a source to one screen quadrant: the source is shifted so
    /// the quadrant's corner is the origin, and tracing is clipped to the
    /// quadrant rectangle.
    pub fn new(world_view: &WorldView, source: Tracer, size: u32, quadrant: u8) -> (r: Self)
        requires
            1 <= quadrant <= 4,
        ensures
            ({
                let half = (size / 2) as int * FX_ONE as int;
                let sx: int = if quadrant == 2 || quadrant == 4 { -half } else { 0 };
                let sy: int = if quadrant == 3 || quadrant == 4 { -half } else { 0 };
                let inner = TM::TranslatingM(
                    Box::new(model(source)),
                    Point { x: sx as i64, y: sy as i64 },
                    tm_shift_bounds(tm_bounds(model(source)), Point { x: sx as i64, y: sy as i64 }),
                    *world_view,
                );
                model(Tracer::QuadrantT(r)) == TM::QuadrantM(
                    Box::new(inner),
                    (half as i64),
                    (half as i64),
                    tm_bounds(inner),
                    *world_view,
                )
            }),
    {
        let half: i64 = (size / 2) as i64 * FX_ONE;
        let sx: i64 = if quadrant == 2 || quadrant == 4 {
            -half
        } else {
            0
        };
        let sy: i64 = if quadrant == 3 || quadrant == 4 {
            -half
        } else {
            0
        };
        let shift = Point { x: sx, y: sy };
        let translater = TranslatingTracer::new(world_view, source, shift);
        let bounds = translater.bounds;
        QuadrantTracer {
            source: Box::new(Tracer::TranslatingT(translater)),
            bounds,
            x_end: half,
            y_end: half,
            world_view: *world_view,
        }
    }

    /// Prune the source and rebuild around it.
    pub fn prune(&self, p: &RenderingParameters) -> (r: Option<Tracer>)
        ensures
            option_model(r) == tm_prune(model(Tracer::QuadrantT(*self)), *p),
        decreases *self, 1int,
    {
        match self.source.prune(p) {
            None => None,
            Some(pruned) => {
                let bounds = pruned.bounds();
                Some(
                    Tracer::QuadrantT(
                        QuadrantTracer {
                            source: Box::new(pruned),
                            bounds,
                            x_end: self.x_end,
                            y_end: self.y_end,
                            world_view: self.world_view,
                        },
                    ),
                )
            },
        }
    }

    /// Trace, clipped to the quadrant rectangle.
    pub fn trace(&self, x: i64, y: i64, ray: Vector) -> (r: TraceResult)
        requires
            tm_wf(model(Tracer::QuadrantT(*self))),
            ray_ok(ray),
        ensures
            r == tm_trace(model(Tracer::QuadrantT(*self)), x, y, ray),
        decreases *self, 1int,
    {
        if !(0 <= x && x < self.x_end) {
            None
        } else if !(0 <= y && y < self.y_end) {
            None
        } else {
            self.source.trace(x, y, ray)
        }
    }
}


/// The insertion index always lands inside the widened sequence.
proof fn lemma_insert_index_bounds(children: Seq<TM>, z: int)
    ensures
        0 <= tm_insert_index(children, z) <= children.len(),
    decreases children.len(),
{
    if children.len() > 0 && tm_bounds(children[0]).z_min <= z {
        lemma_insert_index_bounds(children.drop_first(), z);
    }
}

/// Inserting a sound tree into a sound sequence keeps it sound.
proof fn lemma_wf_seq_insert(children: Seq<TM>, idx: int, m: TM)
    requires
        tm_wf_seq(children),
        tm_wf(m),
        0 <= idx <= children.len(),
    ensures
        tm_wf_seq(children.insert(idx, m)),
{
    lemma_wf_seq_index(children);
    assert forall|k: int| 0 <= k < children.len() + 1 implies tm_wf(
        #[trigger] children.insert(idx, m)[k],
    ) by {
        if k < idx {
            assert(children.insert(idx, m)[k] == children[k]);
        } else if k == idx {
            assert(children.insert(idx, m)[k] == m);
        } else {
            assert(children.insert(idx, m)[k] == children[k - 1]);
        }
    }
    lemma_wf_seq_all(children.insert(idx, m));
}

/// Filing a sound tree into a sound grid keeps the grid sound and leaves
/// its shape and box unchanged.
proof fn lemma_facet_add_props(f: TM, m: TM)
    requires
        f is FacetM,
    ensures
        ({
            let r = tm_facet_add(f, m);
            match (f, r) {
                (TM::FacetM(rc, cells, fb, _), TM::FacetM(rc2, cells2, fb2, e2)) => {
                    &&& rc2 == rc
                    &&& fb2 == fb
                    &&& cells2.len() == cells.len()
                    &&& e2 == false
                    &&& (tm_wf(f) && tm_wf(m) ==> tm_wf(r))
                },
                _ => false,
            }
        }),
{
    match f {
        TM::FacetM(rc, cells, fb, e) => {
            let r = tm_facet_add(f, m);
            if tm_wf(f) && tm_wf(m) {
                lemma_wf_cells_index(cells);
                match r {
                    TM::FacetM(_, cells2, _, _) => {
                        assert forall|n: int| 0 <= n < cells2.len() implies tm_wf_seq(
                            (#[trigger] cells2[n]).0,
                        ) by {
                            if tm_cell_covered(rc, fb, tm_bounds(m), n) {
                                lemma_insert_index_bounds(
                                    cells[n].0,
                                    tm_bounds(m).z_min as int,
                                );
                                lemma_wf_seq_insert(
                                    cells[n].0,
                                    tm_insert_index(cells[n].0, tm_bounds(m).z_min as int),
                                    m,
                                );
                            }
                        }
                        lemma_wf_cells_all(cells2);
                    },
                    _ => {},
                }
            }
        },
        _ => {},
    }
}

/// Soundness in every cell makes a sound grid.
proof fn lemma_wf_cells_all(cells: Seq<(Seq<TM>, Bounds)>)
    requires
        forall|n: int| 0 <= n < cells.len() ==> tm_wf_seq((#[trigger] cells[n]).0),
    ensures
        tm_wf_cells(cells),
    decreases cells.len(),
{
    if cells.len() > 0 {
        assert forall|n: int| 0 <= n < cells.drop_last().len() implies tm_wf_seq(
            (#[trigger] cells.drop_last()[n]).0,
        ) by {
            assert(cells.drop_last()[n] == cells[n]);
        }
        lemma_wf_cells_all(cells.drop_last());
        assert(cells.last() == cells[cells.len() - 1]);
    }
}

/// Pruning a sound tree yields a sound tree.
pub proof fn lemma_prune_wf(m: TM, p: RenderingParameters)
    requires
        tm_wf(m),
    ensures
        match tm_prune(m, p) {
            Some(m2) => tm_wf(m2),
            None => true,
        },
    decreases m, 2int,
{
    match m {
        TM::BoneM(_) => {},
        TM::FacetM(_, _, _, _) => {},
        TM::GroupM(children, b) => {
            if contains_spec(p, b) {
                let base = tm_fresh_facet(b, p);
                assert(tm_wf(base)) by {
                    match base {
                        TM::FacetM(rc, cells, _, _) => {
                            assert forall|n: int| 0 <= n < cells.len() implies tm_wf_seq(
                                (#[trigger] cells[n]).0,
                            ) by {
                                assert(cells[n].0 =~= Seq::<TM>::empty());
                            }
                            lemma_wf_cells_all(cells);
                        },
                        _ => {},
                    }
                }
                lemma_flatten_props(children, 0, base, p);
            }
        },
        TM::ScalingM(src, scale, _, wv) => {
            lemma_prune_wf(*src, scale_spec(p, scale));
        },
        TM::TranslatingM(src, shift, _, wv) => {
            lemma_prune_wf(*src, translate_spec(p, shift.x, shift.y));
        },
        TM::QuadrantM(src, _, _, _, wv) => {
            lemma_prune_wf(*src, p);
        },
    }
}

/// Flattening sound children into a sound grid yields a sound grid of the
/// same shape and box.
proof fn lemma_flatten_props(children: Seq<TM>, i: int, facet: TM, p: RenderingParameters)
    requires
        tm_wf_seq(children),
        tm_wf(facet),
        facet is FacetM,
    ensures
        ({
            let r = tm_flatten(children, i, facet, p);
            match (facet, r) {
                (TM::FacetM(rc, cells, fb, _), TM::FacetM(rc2, cells2, fb2, _)) => {
                    &&& rc2 == rc
                    &&& fb2 == fb
                    &&& cells2.len() == cells.len()
                    &&& tm_wf(r)
                },
                _ => false,
            }
        }),
    decreases children, (if children.len() >= i { children.len() - i } else { 0int }), 3int,
{
    if 0 <= i < children.len() {
        lemma_wf_seq_index(children);
        let facet2 = match children[i] {
            TM::GroupM(inner, b) => {
                if contains_spec(p, b) {
                    lemma_flatten_props(inner, 0, facet, p);
                    tm_flatten(inner, 0, facet, p)
                } else {
                    facet
                }
            },
            other => {
                match tm_prune(other, p) {
                    Some(pruned) => {
                        lemma_prune_wf(other, p);
                        lemma_facet_add_props(facet, pruned);
                        tm_facet_add(facet, pruned)
                    },
                    None => facet,
                }
            },
        };
        lemma_flatten_props(children, i + 1, facet2, p);
    }
}

/// Pruning is idempotent: what one pruning pass keeps, a second pass under
/// the same viewport keeps unchanged, with the same bounds and therefore
/// the same trace at every pixel.
pub proof fn lemma_prune_idempotent(m: TM, p: RenderingParameters)
    requires
        tm_wf(m),
        p.x_min <= p.x_max,
        p.y_min <= p.y_max,
    ensures
        match tm_prune(m, p) {
            Some(m2) => tm_prune(m2, p) == Some(m2),
            None => true,
        },
    decreases m, 3int,
{
    match m {
        TM::BoneM(_) => {},
        TM::FacetM(_, _, _, _) => {},
        TM::GroupM(children, b) => {
            if contains_spec(p, b) {
                let base = tm_fresh_facet(b, p);
                assert(tm_wf(base)) by {
                    match base {
                        TM::FacetM(rc, cells, _, _) => {
                            assert forall|n: int| 0 <= n < cells.len() implies tm_wf_seq(
                                (#[trigger] cells[n]).0,
                            ) by {
                                assert(cells[n].0 =~= Seq::<TM>::empty());
                            }
                            lemma_wf_cells_all(cells);
                        },
                        _ => {},
                    }
                }
                lemma_flatten_props(children, 0, base, p);
            }
        },
        TM::ScalingM(src, scale, _, wv) => {
            let p2 = scale_spec(p, scale);
            crate::fixed::lemma_fx_div_monotone(p.x_min as int, p.x_max as int, scale as int);
            crate::fixed::lemma_fx_div_monotone(p.y_min as int, p.y_max as int, scale as int);
            lemma_prune_wf(*src, p2);
            lemma_prune_idempotent(*src, p2);
        },
        TM::TranslatingM(src, shift, _, wv) => {
            let p2 = translate_spec(p, shift.x, shift.y);
            lemma_prune_wf(*src, p2);
            lemma_prune_idempotent(*src, p2);
        },
        TM::QuadrantM(src, _, _, _, wv) => {
            lemma_prune_wf(*src, p);
            lemma_prune_idempotent(*src, p);
        },
    }
}

/// Every hit a group reports comes from a child whose footprint contains
/// the pixel and whose reported depth is positive: a pixel inside one
/// ball's footprint alone can never take another ball's color.
pub proof fn lemma_scan_provenance(
    children: Seq<TM>,
    i: int,
    x: i64,
    y: i64,
    ray: Vector,
    best: TraceResult,
)
    ensures
        ({
            let r = tm_scan(children, i, x, y, ray, best);
            r is Some ==> r == best || exists|k: int|
                i <= k < children.len() && (#[trigger] tm_bounds(children[k]).x_min) <= x
                    <= tm_bounds(children[k]).x_max && tm_bounds(children[k]).y_min <= y
                    <= tm_bounds(children[k]).y_max && tm_trace(children[k], x, y, ray) == r
                    && r->Some_0.0 > 0
        }),
    decreases children, (if children.len() >= i { children.len() - i } else { 0int }),
{
    if 0 <= i < children.len() {
        let c = children[i];
        let b = tm_bounds(c);
        if b.z_max <= 0 {
            lemma_scan_provenance(children, i + 1, x, y, ray, best);
        } else if !(b.x_min <= x <= b.x_max && b.y_min <= y <= b.y_max) {
            lemma_scan_provenance(children, i + 1, x, y, ray, best);
        } else if best is Some && !(b.z_min < best_z(best)) {
        } else {
            let best2 = match tm_trace(c, x, y, ray) {
                Some((z, dir, col)) => if z > 0 && (best is None || (z as int) < best_z(
                    best,
                )) {
                    Some((z, dir, col))
                } else {
                    best
                },
                None => best,
            };
            lemma_scan_provenance(children, i + 1, x, y, ray, best2);
        }
    }
}

/// A group whose box lies outside the viewport prunes to nothing: after
/// that, no trace of it can be asked for.
pub proof fn lemma_prune_outside_is_none(children: Seq<TM>, b: Bounds, p: RenderingParameters)
    requires
        !contains_spec(p, b),
    ensures
        tm_prune(TM::GroupM(children, b), p) is None,
{
}

/// The capsule tracer a bone yields under a camera, if its geometry is in
/// range and both end balls project: the data `BoneTracer::new` precomputes.
pub open spec fn bone_traceable_spec(b: crate::bone::Bone, wv: WorldView) -> Option<
    BoneTracer,
> {
    if !(crate::world_view::small_coord(b.b1.center, 0x400000000)
        && crate::world_view::small_coord(b.b2.center, 0x400000000) && 0 <= b.b1.radius
        <= 0x4000000 && 0 <= b.b2.radius <= 0x4000000) {
        None
    } else {
        match (
            crate::projection::sphere_projection_spec(wv, b.b1.center, b.b1.radius as int),
            crate::projection::sphere_projection_spec(wv, b.b2.center, b.b2.radius as int),
        ) {
            (Some(s1), Some(s2)) => {
                if crate::world_view::small_coord(s1.center_cs, 0x10000000)
                    && crate::world_view::small_coord(s2.center_cs, 0x10000000) {
                    let bp1 = crate::projection::BallProjection { sphere: s1, base: b.b1 };
                    let bp2 = crate::projection::BallProjection { sphere: s2, base: b.b2 };
                    let w = crate::vector::v_sub(s2.center_cs, s1.center_cs);
                    let a = s1.center_cs;
                    let ra = b.b1.radius;
                    let dr = b.b2.radius - b.b1.radius;
                    Some(
                        BoneTracer {
                            w,
                            a,
                            ra,
                            dr: dr as i64,
                            c2: (crate::bone_tracer::dot_exact(w, w) - dr * dr) as i128,
                            c4: (2 * crate::bone_tracer::dot_exact(a, w) - 2 * (ra * dr)) as i128,
                            c6: (crate::bone_tracer::dot_exact(a, a) - ra * ra) as i128,
                            b1: bp1,
                            b2: bp2,
                            bounds: crate::bounds::for_balls_spec(seq![bp1, bp2]),
                        },
                    )
                } else {
                    None
                }
            },
            _ => None,
        }
    }
}

impl crate::bone::Bone {
    /// Project both end balls and add the capsule's tracer to a group; a
    /// bone whose geometry is out of range or fails to project contributes
    /// nothing.
    #[verifier::rlimit(100)]
    pub fn add_traceable(&self, tracer: &mut GroupTracer, world_view: &WorldView)
        requires
            world_view.wf(),
        ensures
            ({
                let before = (models(old(tracer).tracers@), old(tracer).bounds);
                let after = (models(final(tracer).tracers@), final(tracer).bounds);
                match bone_traceable_spec(*self, *world_view) {
                    Some(bt) => after == tm_group_add(before, TM::BoneM(bt)),
                    None => after == before,
                }
            }),
    {
        if !(-0x400000000 <= self.b1.center.x && self.b1.center.x <= 0x400000000
            && -0x400000000 <= self.b1.center.y && self.b1.center.y <= 0x400000000
            && -0x400000000 <= self.b1.center.z && self.b1.center.z <= 0x400000000
            && -0x400000000 <= self.b2.center.x && self.b2.center.x <= 0x400000000
            && -0x400000000 <= self.b2.center.y && self.b2.center.y <= 0x400000000
            && -0x400000000 <= self.b2.center.z && self.b2.center.z <= 0x400000000
            && 0 <= self.b1.radius && self.b1.radius <= 0x4000000 && 0 <= self.b2.radius
            && self.b2.radius <= 0x4000000) {
            return ;
        }
        let bp1 = match crate::projection::BallProjection::new(world_view, self.b1) {
            Some(bp) => bp,
            None => {
                return ;
            },
        };
        let bp2 = match crate::projection::BallProjection::new(world_view, self.b2) {
            Some(bp) => bp,
            None => {
                return ;
            },
        };
        let c1 = bp1.sphere.center_cs;
        let c2 = bp2.sphere.center_cs;
        if !(-0x10000000 <= c1.x && c1.x <= 0x10000000 && -0x10000000 <= c1.y && c1.y
            <= 0x10000000 && -0x10000000 <= c1.z && c1.z <= 0x10000000 && -0x10000000 <= c2.x
            && c2.x <= 0x10000000 && -0x10000000 <= c2.y && c2.y <= 0x10000000 && -0x10000000
            <= c2.z && c2.z <= 0x10000000) {
            return ;
        }
        let bt = BoneTracer::new(bp1, bp2);
        tracer.add(Tracer::BoneT(bt));
    }
}

/// The cosine threshold (in fixed point) below which two consecutive
/// segment directions are considered to bend: about one degree.
pub const MERGE_COS: i64 = 65526;

/// The sampled ball at step `i` of a warped bone's polygonization: the
/// straight-line interpolation between the end balls, deformed sideways by
/// the warp samples, with radius and color interpolated linearly.
pub open spec fn warp_ball_spec(
    b1: crate::ball::Ball,
    b2: crate::ball::Ball,
    xw: Option<Seq<i64>>,
    yw: Option<Seq<i64>>,
    i: int,
) -> crate::ball::Ball {
    let f = crate::fixed::fdiv(i * FX_ONE as int, 255) as i64;
    let v = crate::vector::v_sub(b2.center, b1.center);
    let len = crate::vector::len_spec(v) as i64;
    let n = crate::vector::v_div(v, len as int);
    let vx = crate::vector::cross_ux_spec(n);
    let vy = crate::vector::cross_uy_spec(n);
    let fx: i64 = match xw {
        Some(t) => t[i],
        None => f,
    };
    let fy: i64 = match yw {
        Some(t) => t[i],
        None => f,
    };
    let c = crate::vector::v_add(
        crate::vector::v_add(
            crate::vector::v_add(b1.center, crate::vector::v_scale(v, f as int)),
            crate::vector::v_scale(vx, fx_mul_spec(sat64(fx - f), len as int)),
        ),
        crate::vector::v_scale(vy, fx_mul_spec(sat64(fy - f), len as int)),
    );
    let radius = sat64(
        b1.radius + crate::color::round_half_away(
            (f as int) * (b2.radius - b1.radius),
            FX_ONE as int,
        ),
    ) as i64;
    let color = Color {
        r: crate::color::mix_channel(b1.color.r as int, b2.color.r as int, f as int) as u8,
        g: crate::color::mix_channel(b1.color.g as int, b2.color.g as int, f as int) as u8,
        b: crate::color::mix_channel(b1.color.b as int, b2.color.b as int, f as int) as u8,
        a: 255,
    };
    crate::ball::Ball { center: c, radius, color }
}

/// Whether the midpoint bends the polyline by less than the threshold:
/// the (fixed-point) cosine between the two segment directions is above
/// the merge cosine.
pub open spec fn nearly_straight_spec(
    prev: crate::ball::Ball,
    cur: crate::ball::Ball,
    next: crate::ball::Ball,
) -> bool {
    let s1 = crate::vector::v_sub(cur.center, prev.center);
    let s2 = crate::vector::v_sub(next.center, cur.center);
    crate::fixed::fx_div_spec(
        crate::vector::dot_spec(s1, s2),
        fx_mul_spec(crate::vector::len_spec(s1), crate::vector::len_spec(s2)),
    ) > MERGE_COS as int
}

/// The knots the merge pass keeps, scanning from step `i` with the last
/// kept knot `prev`: a sample that leaves the polyline nearly straight is
/// dropped; the final sample is always kept.
pub open spec fn kept_knots_spec(
    balls: Seq<crate::ball::Ball>,
    i: int,
    prev: crate::ball::Ball,
) -> Seq<crate::ball::Ball>
    decreases (if balls.len() >= i { balls.len() - i } else { 0int }),
{
    if i < 0 || i >= balls.len() {
        Seq::empty()
    } else if i < balls.len() - 1 && nearly_straight_spec(prev, balls[i], balls[i + 1]) {
        kept_knots_spec(balls, i + 1, prev)
    } else {
        seq![balls[i]] + kept_knots_spec(balls, i + 1, balls[i])
    }
}

/// A group after one bone segment per consecutive pair of knots is added.
pub open spec fn add_chain_spec(
    g: (Seq<TM>, Bounds),
    knots: Seq<crate::ball::Ball>,
    k: int,
    wv: WorldView,
) -> (Seq<TM>, Bounds)
    decreases (if knots.len() >= k { knots.len() - k } else { 0int }),
{
    if k < 1 || k >= knots.len() {
        g
    } else {
        let b = crate::bone::Bone { b1: knots[k - 1], b2: knots[k] };
        let g2 = match bone_traceable_spec(b, wv) {
            Some(bt) => tm_group_add(g, TM::BoneM(bt)),
            None => g,
        };
        add_chain_spec(g2, knots, k + 1, wv)
    }
}

impl crate::bone::Bone {
    /// Polygonize a warped bone and add its segments to a group.  A warp
    /// is handed in as a table of 256 sampled values of the deformation at
    /// the 256 polygonization steps (computing a power-law warp itself
    /// takes floating point and happens outside the library).  Consecutive
    /// samples that bend the midline by less than about one degree are
    /// merged away, bounding the segment count while keeping the silhouette
    /// smooth.
    pub fn add_traceable_warped(
        &self,
        tracer: &mut GroupTracer,
        world_view: &WorldView,
        warp_x: Option<&Vec<i64>>,
        warp_y: Option<&Vec<i64>>,
    )
        requires
            world_view.wf(),
            match warp_x {
                Some(t) => t@.len() == 256,
                None => true,
            },
            match warp_y {
                Some(t) => t@.len() == 256,
                None => true,
            },
        ensures
            ({
                let xw = match warp_x {
                    Some(t) => Some(t@),
                    None => None,
                };
                let yw = match warp_y {
                    Some(t) => Some(t@),
                    None => None,
                };
                let samples = Seq::new(
                    256,
                    |i: int| warp_ball_spec(self.b1, self.b2, xw, yw, i),
                );
                let knots = seq![samples[0]] + kept_knots_spec(samples, 1, samples[0]);
                (models(final(tracer).tracers@), final(tracer).bounds) == add_chain_spec(
                    (models(old(tracer).tracers@), old(tracer).bounds),
                    knots,
                    1,
                    *world_view,
                )
            }),
    {
        let ghost xw = match warp_x {
            Some(t) => Some(t@),
            None => None::<Seq<i64>>,
        };
        let ghost yw = match warp_y {
            Some(t) => Some(t@),
            None => None::<Seq<i64>>,
        };
        let ghost sample_seq = Seq::new(
            256,
            |i: int| warp_ball_spec(self.b1, self.b2, xw, yw, i),
        );
        let mut samples: Vec<crate::ball::Ball> = Vec::new();
        let mut i: usize = 0;
        while i < 256
            invariant
                0 <= i <= 256,
                samples@.len() == i,
                world_view.wf(),
                sample_seq == Seq::new(
                    256,
                    |k: int| warp_ball_spec(self.b1, self.b2, xw, yw, k),
                ),
                (match warp_x {
                    Some(t) => xw == Some(t@) && t@.len() == 256,
                    None => xw is None,
                }),
                (match warp_y {
                    Some(t) => yw == Some(t@) && t@.len() == 256,
                    None => yw is None,
                }),
                forall|k: int| 0 <= k < i ==> samples@[k] == sample_seq[k],
            decreases 256 - i,
        {
            let f: i64 = (i as i64 * FX_ONE) / 255;
            proof {
                assert(i as int * FX_ONE as int >= 0) by (nonlinear_arith)
                    requires
                        i >= 0,
                ;
                assert(i as int * FX_ONE as int <= 256 * 65536) by (nonlinear_arith)
                    requires
                        0 <= i <= 256,
                        FX_ONE == 65536,
                ;
            }
            let v = self.b2.center.minus(&self.b1.center);
            let len = v.length();
            let n = v.div_by(len);
            let (vx, vy) = n.cross_axes();
            let fxv: i64 = match warp_x {
                Some(t) => t[i],
                None => f,
            };
            let fyv: i64 = match warp_y {
                Some(t) => t[i],
                None => f,
            };
            let c = self
                .b1
                .center
                .plus(&v.scale(f))
                .plus(&vx.scale(fx_mul(fx_sub(fxv, f), len)))
                .plus(&vy.scale(fx_mul(fx_sub(fyv, f), len)));
            let dr: i128 = self.b2.radius as i128 - self.b1.radius as i128;
            proof {
                crate::fixed::lemma_mul_bounds_abs(f as int, dr as int, 0x10001, 0x10000000000000000);
            }
            let step: i128 = round_mix(f as i128 * dr);
            let radius = clamp_i128(self.b1.radius as i128 + step);
            let color = self.b1.color.mix(self.b2.color, f);
            let ball = crate::ball::Ball { center: c, radius, color };
            proof {
                assert(ball == warp_ball_spec(self.b1, self.b2, xw, yw, i as int));
            }
            samples.push(ball);
            i = i + 1;
        }
        let ghost knots_seq = seq![sample_seq[0]] + kept_knots_spec(sample_seq, 1, sample_seq[0]);
        let mut prev: crate::ball::Ball = samples[0];
        let mut knots: Vec<crate::ball::Ball> = Vec::new();
        knots.push(prev);
        let mut j: usize = 1;
        while j < 256
            invariant
                1 <= j <= 256,
                samples@.len() == 256,
                samples@ == sample_seq,
                knots@.len() >= 1,
                knots@.last() == prev,
                knots_seq == seq![sample_seq[0]] + kept_knots_spec(sample_seq, 1, sample_seq[0]),
                knots@ + kept_knots_spec(sample_seq, j as int, prev) == knots_seq,
            decreases 256 - j,
        {
            let cur = samples[j];
            let merged: bool = if j < 255 {
                let next = samples[j + 1];
                let s1 = cur.center.minus(&prev.center);
                let s2 = next.center.minus(&cur.center);
                let cosv = fx_div(s1.scalar_product(&s2), fx_mul(s1.length(), s2.length()));
                cosv > MERGE_COS
            } else {
                false
            };
            if !merged {
                knots.push(cur);
                prev = cur;
                proof {
                    assert(knots@.drop_last() + (seq![cur] + kept_knots_spec(
                        sample_seq,
                        j + 1,
                        cur,
                    )) =~= knots@ + kept_knots_spec(sample_seq, j + 1, cur));
                }
            }
            j = j + 1;
        }
        proof {
            assert(kept_knots_spec(sample_seq, 256, prev) =~= Seq::<crate::ball::Ball>::empty());
            assert(knots@ + kept_knots_spec(sample_seq, 256, prev) =~= knots@);
        }
        let total = knots.len();
        let mut k: usize = 1;
        while k < total
            invariant
                1 <= k <= total,
                total == knots@.len(),
                knots@ == knots_seq,
                world_view.wf(),
                add_chain_spec(
                    (models(tracer.tracers@), tracer.bounds),
                    knots_seq,
                    k as int,
                    *world_view,
                ) == add_chain_spec(
                    (models(old(tracer).tracers@), old(tracer).bounds),
                    knots_seq,
                    1,
                    *world_view,
                ),
            decreases total - k,
        {
            let seg = crate::bone::Bone::new(knots[k - 1], knots[k]);
            seg.add_traceable(tracer, world_view);
            k = k + 1;
        }
    }
}

/// One interpolation step of a linear mix, rounded to nearest with halves
/// away from zero.
fn round_mix(n: i128) -> (r: i128)
    requires
        -0x400000000000000000000 <= n <= 0x400000000000000000000,
    ensures
        r as int == crate::color::round_half_away(n as int, FX_ONE as int),
{
    if n >= 0 {
        crate::fixed::floor_div_i128(2 * n + 65536, 2 * 65536)
    } else {
        -crate::fixed::floor_div_i128(2 * (-n) + 65536, 2 * 65536)
    }
}
} // verus!
