//! The target pixel buffer and the draw loop: the scene is pruned once per
//! call, and every pixel of the requested rectangle that the pruned scene's
//! footprint reaches is resolved by one ray; pixels the scene misses keep
//! their old color.

use vstd::prelude::*;
use crate::bounds::Bounds;
use crate::bounds::intersection_spec;
use crate::color::Color;
use crate::fixed::FX_ONE;
use crate::rendering_parameters::RenderingParameters;
use crate::rendering_parameters::params_spec;
use crate::tracer::TM;
use crate::tracer::Tracer;
use crate::tracer::lemma_prune_wf;
use crate::tracer::model;
use crate::tracer::tm_bounds;
use crate::tracer::tm_prune;
use crate::tracer::tm_trace;
use crate::tracer::tm_wf;
use crate::world_view::WorldView;
use crate::world_view::ray_spec;

verus! {

/// A rectangular pixel buffer in row-major order.
pub struct Raster {
    width: usize,
    height: usize,
    pixels: Vec<Color>,
}

/// The color a pixel shows after a draw call: its old color, unless the
/// pruned scene reaches the pixel's position and reports a hit there.
pub open spec fn pixel_after(
    pm: Option<TM>,
    wv: WorldView,
    rect: Bounds,
    px: int,
    py: int,
    old_pix: Color,
) -> Color {
    match pm {
        None => old_pix,
        Some(m) => {
            let fx = (px * FX_ONE as int) as i64;
            let fy = (py * FX_ONE as int) as i64;
            if rect.x_min <= fx <= rect.x_max && rect.y_min <= fy <= rect.y_max {
                match tm_trace(m, fx, fy, ray_spec(wv, fx as int, fy as int)) {
                    Some((_, _, c)) => c,
                    None => old_pix,
                }
            } else {
                old_pix
            }
        },
    }
}

/// The clipped rectangle and the pruned scene a draw call works with.
pub open spec fn draw_rect(t: TM, rect: Bounds) -> Bounds {
    intersection_spec(rect, tm_bounds(t))
}

pub open spec fn draw_pruned(t: TM, rect: Bounds) -> Option<TM> {
    tm_prune(t, params_spec(FX_ONE, draw_rect(t, rect)))
}

/// Distinct pixel positions occupy distinct buffer slots.
proof fn lemma_pixel_index(w: int, x1: int, y1: int, x2: int, y2: int)
    by (nonlinear_arith)
    requires
        0 <= x1 < w,
        0 <= x2 < w,
        0 <= y1,
        0 <= y2,
    ensures
        y1 * w + x1 == y2 * w + x2 ==> x1 == x2 && y1 == y2,
        y1 * w + x1 >= 0,
{
}

/// A pixel's slot lies inside the buffer.
proof fn lemma_pixel_in_range(w: int, h: int, x: int, y: int)
    by (nonlinear_arith)
    requires
        0 <= x < w,
        0 <= y < h,
    ensures
        0 <= y * w + x < w * h,
{
}

impl Raster {
    pub closed spec fn wf(&self) -> bool {
        &&& self.pixels@.len() == self.width * self.height
        &&& self.width <= 0xffff
        &&& self.height <= 0xffff
    }

    pub closed spec fn spec_width(&self) -> int {
        self.width as int
    }

    pub closed spec fn spec_height(&self) -> int {
        self.height as int
    }

    /// The color at a pixel position.
    pub closed spec fn pixel(&self, x: int, y: int) -> Color {
        self.pixels@[y * self.width + x]
    }

    /// A buffer filled with one background color.
    pub fn new(width: usize, height: usize, background: Color) -> (r: Self)
        requires
            width <= 0xffff,
            height <= 0xffff,
        ensures
            r.wf(),
            r.spec_width() == width,
            r.spec_height() == height,
            forall|x: int, y: int|
                0 <= x < width && 0 <= y < height ==> #[trigger] r.pixel(x, y) == background,
    {
        proof {
            crate::fixed::lemma_mul_bounds_abs(width as int, height as int, 0xffff, 0xffff);
        }
        let total: usize = width * height;
        let mut pixels: Vec<Color> = Vec::new();
        for n in 0..total
            invariant
                pixels@.len() == n,
                forall|m: int| 0 <= m < n ==> pixels@[m] == background,
        {
            pixels.push(background);
        }
        let r = Raster { width, height, pixels };
        proof {
            assert forall|x: int, y: int|
                0 <= x < width && 0 <= y < height implies #[trigger] r.pixel(x, y)
                == background by {
                lemma_pixel_in_range(width as int, height as int, x, y);
            }
        }
        r
    }

    pub fn width(&self) -> (r: usize)
        ensures
            r == self.spec_width(),
    {
        self.width
    }

    pub fn height(&self) -> (r: usize)
        ensures
            r == self.spec_height(),
    {
        self.height
    }

    /// Read one pixel.
    pub fn get(&self, x: usize, y: usize) -> (r: Color)
        requires
            self.wf(),
            x < self.spec_width(),
            y < self.spec_height(),
        ensures
            r == self.pixel(x as int, y as int),
    {
        proof {
            lemma_pixel_in_range(self.width as int, self.height as int, x as int, y as int);
            crate::fixed::lemma_mul_bounds_abs(
                self.width as int,
                self.height as int,
                0xffff,
                0xffff,
            );
        }
        self.pixels[y * self.width + x]
    }

    /// Write one pixel.
    fn set(&mut self, x: usize, y: usize, c: Color)
        requires
            old(self).wf(),
            x < old(self).spec_width(),
            y < old(self).spec_height(),
        ensures
            final(self).wf(),
            final(self).spec_width() == old(self).spec_width(),
            final(self).spec_height() == old(self).spec_height(),
            final(self).pixel(x as int, y as int) == c,
            forall|qx: int, qy: int|
                0 <= qx < old(self).spec_width() && 0 <= qy < old(self).spec_height() && !(qx
                    == x && qy == y) ==> #[trigger] final(self).pixel(qx, qy) == old(
                    self,
                ).pixel(qx, qy),
    {
        proof {
            lemma_pixel_in_range(self.width as int, self.height as int, x as int, y as int);
            crate::fixed::lemma_mul_bounds_abs(
                self.width as int,
                self.height as int,
                0xffff,
                0xffff,
            );
        }
        let idx = y * self.width + x;
        self.pixels[idx] = c;
        proof {
            assert forall|qx: int, qy: int|
                0 <= qx < old(self).spec_width() && 0 <= qy < old(self).spec_height() && !(qx
                    == x && qy == y) implies #[trigger] final(self).pixel(qx, qy) == old(
                self,
            ).pixel(qx, qy) by {
                lemma_pixel_in_range(self.width as int, self.height as int, qx, qy);
                lemma_pixel_index(self.width as int, qx, qy, x as int, y as int);
            }
        }
    }
}

impl Tracer {
    /// Draw the scene into a whole buffer.
    pub fn draw(&self, world_view: &WorldView, raster: &mut Raster)
        requires
            tm_wf(model(*self)),
            world_view.wf(),
            old(raster).wf(),
        ensures
            final(raster).wf(),
            final(raster).spec_width() == old(raster).spec_width(),
            final(raster).spec_height() == old(raster).spec_height(),
            ({
                let full = full_rect(*old(raster), model(*self));
                forall|px: int, py: int|
                    0 <= px < old(raster).spec_width() && 0 <= py < old(raster).spec_height()
                        ==> #[trigger] final(raster).pixel(px, py) == pixel_after(
                        draw_pruned(model(*self), full),
                        *world_view,
                        draw_rect(model(*self), full),
                        px,
                        py,
                        old(raster).pixel(px, py),
                    )
            }),
    {
        let w = raster.width();
        let h = raster.height();
        proof {
            crate::fixed::lemma_mul_bounds_abs(w as int, FX_ONE as int, 0xffff, 0x10000);
            crate::fixed::lemma_mul_bounds_abs(h as int, FX_ONE as int, 0xffff, 0x10000);
        }
        let tb = self.bounds();
        let rect = Bounds {
            x_min: 0,
            x_max: w as i64 * FX_ONE,
            y_min: 0,
            y_max: h as i64 * FX_ONE,
            z_min: tb.z_min,
            z_max: tb.z_max,
            empty: false,
        };
        self.draw_partial(world_view, raster, &rect);
    }

    /// Draw the part of the scene that falls in a requested rectangle: the
    /// scene is pruned once against the clipped viewport; each pixel of the
    /// buffer inside the clipped rectangle is resolved by one ray.
    pub fn draw_partial(&self, world_view: &WorldView, raster: &mut Raster, rect: &Bounds)
        requires
            tm_wf(model(*self)),
            world_view.wf(),
            old(raster).wf(),
        ensures
            final(raster).wf(),
            final(raster).spec_width() == old(raster).spec_width(),
            final(raster).spec_height() == old(raster).spec_height(),
            forall|px: int, py: int|
                0 <= px < old(raster).spec_width() && 0 <= py < old(raster).spec_height()
                    ==> #[trigger] final(raster).pixel(px, py) == pixel_after(
                    draw_pruned(model(*self), *rect),
                    *world_view,
                    draw_rect(model(*self), *rect),
                    px,
                    py,
                    old(raster).pixel(px, py),
                ),
    {
        let tb = self.bounds();
        let clipped = rect.intersection(&tb);
        let params = RenderingParameters::new(FX_ONE, &clipped);
        let pruned = match self.prune(&params) {
            None => {
                return ;
            },
            Some(t) => t,
        };
        proof {
            lemma_prune_wf(model(*self), params_spec(FX_ONE, intersection_spec(*rect, tm_bounds(model(*self)))));
        }
        let w = raster.width();
        let h = raster.height();
        let ghost pm = draw_pruned(model(*self), *rect);
        let ghost drect = draw_rect(model(*self), *rect);
        let mut py: usize = 0;
        while py < h
            invariant
                tm_wf(model(pruned)),
                world_view.wf(),
                raster.wf(),
                raster.spec_width() == old(raster).spec_width(),
                raster.spec_height() == old(raster).spec_height(),
                w == raster.spec_width(),
                h == raster.spec_height(),
                0 <= py <= h,
                pm == draw_pruned(model(*self), *rect),
                drect == draw_rect(model(*self), *rect),
                pm == Some(model(pruned)),
                drect == clipped,
                forall|qx: int, qy: int|
                    0 <= qx < w && 0 <= qy < py ==> #[trigger] raster.pixel(qx, qy)
                        == pixel_after(pm, *world_view, drect, qx, qy, old(raster).pixel(qx, qy)),
                forall|qx: int, qy: int|
                    0 <= qx < w && py <= qy < h ==> #[trigger] raster.pixel(qx, qy) == old(
                        raster,
                    ).pixel(qx, qy),
            decreases h - py,
        {
            let fy: i64 = py as i64 * FX_ONE;
            let mut px: usize = 0;
            while px < w
                invariant
                    tm_wf(model(pruned)),
                    world_view.wf(),
                    raster.wf(),
                    raster.spec_width() == old(raster).spec_width(),
                    raster.spec_height() == old(raster).spec_height(),
                    w == raster.spec_width(),
                    h == raster.spec_height(),
                    0 <= px <= w,
                    0 <= py < h,
                    fy == py * FX_ONE,
                    pm == draw_pruned(model(*self), *rect),
                    drect == draw_rect(model(*self), *rect),
                    pm == Some(model(pruned)),
                    drect == clipped,
                    forall|qx: int, qy: int|
                        0 <= qx < w && 0 <= qy < py ==> #[trigger] raster.pixel(qx, qy)
                            == pixel_after(
                            pm,
                            *world_view,
                            drect,
                            qx,
                            qy,
                            old(raster).pixel(qx, qy),
                        ),
                    forall|qx: int|
                        0 <= qx < px ==> #[trigger] raster.pixel(qx, py as int) == pixel_after(
                            pm,
                            *world_view,
                            drect,
                            qx,
                            py as int,
                            old(raster).pixel(qx, py as int),
                        ),
                    forall|qx: int|
                        px <= qx < w ==> #[trigger] raster.pixel(qx, py as int) == old(
                            raster,
                        ).pixel(qx, py as int),
                    forall|qx: int, qy: int|
                        0 <= qx < w && py < qy < h ==> #[trigger] raster.pixel(qx, qy) == old(
                            raster,
                        ).pixel(qx, qy),
                decreases w - px,
            {
                let fx: i64 = px as i64 * FX_ONE;
                if clipped.x_min <= fx && fx <= clipped.x_max && clipped.y_min <= fy && fy
                    <= clipped.y_max {
                    let ray = world_view.ray(fx, fy);
                    proof {
                        crate::world_view::lemma_ray_ok(*world_view, fx as int, fy as int);
                    }
                    match pruned.trace(fx, fy, ray) {
                        Some((_, _, color)) => {
                            raster.set(px, py, color);
                        },
                        None => {},
                    }
                }
                px = px + 1;
            }
            py = py + 1;
        }
    }
}

/// The whole-buffer rectangle a plain draw call uses: the buffer's pixel
/// footprint with the scene's own depth range (so that depth never clips
/// the screen rectangle).
pub open spec fn full_rect(r: Raster, t: TM) -> Bounds {
    Bounds {
        x_min: 0,
        x_max: (r.spec_width() * FX_ONE as int) as i64,
        y_min: 0,
        y_max: (r.spec_height() * FX_ONE as int) as i64,
        z_min: tm_bounds(t).z_min,
        z_max: tm_bounds(t).z_max,
        empty: false,
    }
}

} // verus!
