use unicornify::axis::Axis;
use unicornify::ball::Ball;
use unicornify::bone::Bone;
use unicornify::bounds::Bounds;
use unicornify::color::Color;
use unicornify::fixed::FX_ONE;
use unicornify::fixed::fx_add;
use unicornify::fixed::fx_ceil;
use unicornify::fixed::fx_div;
use unicornify::fixed::fx_floor;
use unicornify::fixed::fx_mul;
use unicornify::fixed::fx_sqrt;
use unicornify::fixed::fx_sub;
use unicornify::fixed::isqrt_u128;
use unicornify::projection::BallProjection;
use unicornify::raster::Raster;
use unicornify::rendering_parameters::RenderingParameters;
use unicornify::tracer::GroupTracer;
use unicornify::tracer::QuadrantTracer;
use unicornify::tracer::Tracer;
use unicornify::vector::Rotation;
use unicornify::vector::Vector;
use unicornify::world_view::WorldView;

const S: i64 = FX_ONE;

fn camera() -> WorldView {
    WorldView::new(
        Vector::new(0, 0, 0),
        Vector::new(0, 0, 100 * S),
        250 * S,
    )
}

fn ball_tracer(wv: &WorldView, ball: Ball) -> GroupTracer {
    let mut g = GroupTracer::new();
    Bone::new(ball, ball).add_traceable(&mut g, wv);
    assert_eq!(g.tracers.len(), 1);
    g
}

fn two_ball_scene(wv: &WorldView) -> (GroupTracer, Color, Color) {
    let red = Color::rgb(200, 10, 10);
    let blue = Color::rgb(10, 10, 200);
    let a = Ball::new(8 * S, 8 * S, 100 * S, 6 * S, red);
    let b = Ball::new(32 * S, 12 * S, 100 * S, 6 * S, blue);
    let mut g = GroupTracer::new();
    Bone::new(a, a).add_traceable(&mut g, wv);
    Bone::new(b, b).add_traceable(&mut g, wv);
    assert_eq!(g.tracers.len(), 2);
    (g, red, blue)
}

#[test]
fn test_fixed_ops() {
    assert_eq!(fx_mul(3 * S, 2 * S), 6 * S);
    assert_eq!(fx_div(6 * S, 2 * S), 3 * S);
    assert_eq!(fx_div(S, 0), 0);
    assert_eq!(fx_add(i64::MAX, 1), i64::MAX);
    assert_eq!(fx_sub(i64::MIN, 1), i64::MIN);
    assert_eq!(fx_sqrt(4 * S), 2 * S);
    assert_eq!(isqrt_u128(99), 9);
    assert_eq!(isqrt_u128(100), 10);
    assert_eq!(fx_floor(3 * S + 5), 3 * S);
    assert_eq!(fx_ceil(3 * S + 5), 4 * S);
    assert_eq!(fx_floor(-3 * S - 5), -4 * S);
    assert_eq!(fx_ceil(-3 * S - 5), -3 * S);
}

#[test]
fn test_vector_ops() {
    let v = Vector::new(3 * S, 4 * S, 0);
    assert_eq!(v.length(), 5 * S);
    let u = v.unit();
    assert!((u.x - 39321).abs() <= 1);
    assert!((u.y - 52428).abs() <= 1);
    assert_eq!(u.z, 0);
    assert_eq!(v.scalar_product(&Vector::new(S, S, S)), 7 * S);
    assert_eq!(v.plus(&Vector::new(S, S, S)), Vector::new(4 * S, 5 * S, S));
    assert_eq!(v.minus(&Vector::new(S, S, S)), Vector::new(2 * S, 3 * S, -S));
}

// Rotating by a quarter turn and back restores the vector exactly; a
// general angle restores it within fixed-point rounding tolerance.
#[test]
fn test_rotate_round_trip() {
    let v = Vector::new(12345 * 17, -6789 * 33, 424242);
    let p = Vector::new(100 * S, -200 * S, 300 * S);
    for axis in [Axis::X, Axis::Y, Axis::Z] {
        let quarter = Rotation { c: 0, s: S };
        let back = Rotation { c: 0, s: -S };
        let w = v.rotate_around(p, quarter, axis).rotate_around(p, back, axis);
        assert_eq!(w, v);

        // roughly an eighth of a turn: cos and sin of 45 degrees.  The
        // pair is one off a true unit (46341^2 * 2 slightly exceeds
        // 2^32), so the tolerance covers that scale slip over the large
        // pivot distance as well as the rounding of each product.
        let r = Rotation { c: 46341, s: 46341 };
        let rb = Rotation { c: 46341, s: -46341 };
        let w2 = v.rotate_around(p, r, axis).rotate_around(p, rb, axis);
        assert!((w2.x - v.x).abs() <= 64, "{} vs {}", w2.x, v.x);
        assert!((w2.y - v.y).abs() <= 64);
        assert!((w2.z - v.z).abs() <= 64);
    }
}

// Bounds algebra: union is commutative and associative, the empty box is
// its identity, and two empty boxes intersect to the empty box.
#[test]
fn test_bounds_union_laws() {
    let a = Bounds { x_min: -S, x_max: 2 * S, y_min: 0, y_max: S, z_min: S, z_max: 3 * S, empty: false };
    let b = Bounds { x_min: S, x_max: 5 * S, y_min: -S, y_max: 0, z_min: 0, z_max: S, empty: false };
    let c = Bounds { x_min: 0, x_max: S, y_min: 0, y_max: 9 * S, z_min: 2 * S, z_max: 8 * S, empty: false };
    assert_eq!(a.union(&b), b.union(&a));
    assert_eq!(a.union(&b).union(&c), a.union(&b.union(&c)));
    let e = Bounds::empty();
    assert_eq!(a.union(&e), a);
    assert_eq!(e.union(&a), a);
    assert_eq!(e.union(&e), e);
    assert_eq!(e.intersection(&e), e);
    assert_eq!(a.intersection(&b).x_min, S);
    assert_eq!(a.intersection(&b).x_max, 2 * S);
    // disjoint boxes intersect to the empty box
    let far = Bounds { x_min: 100 * S, x_max: 200 * S, y_min: 0, y_max: S, z_min: 0, z_max: S, empty: false };
    assert!(a.intersection(&far).empty);
}

// Widening the viewport never loses a contained box.
#[test]
fn test_contains_monotonic() {
    let b = Bounds { x_min: 10 * S, x_max: 20 * S, y_min: 10 * S, y_max: 20 * S, z_min: S, z_max: 2 * S, empty: false };
    let narrow = RenderingParameters { pixel_size: S, x_min: 0, x_max: 15 * S, y_min: 0, y_max: 15 * S };
    let wide = RenderingParameters { pixel_size: S, x_min: -S, x_max: 40 * S, y_min: -S, y_max: 40 * S };
    assert!(narrow.contains(&b));
    assert!(wide.contains(&b));
    // a box behind the camera is never contained
    let behind = Bounds { z_max: 0, ..b };
    assert!(!wide.contains(&behind));
}

// A ball's box contains its projected footprint and its depth range.
#[test]
fn test_for_ball_bounds() {
    let wv = camera();
    let ball = Ball::new(0, 0, 100 * S, 10 * S, Color::white());
    let bp = BallProjection::new(&wv, ball).unwrap();
    let b = Bounds::for_ball(&bp);
    let pr = bp.projected_radius();
    assert!(pr > 0);
    assert!(b.x_min <= bp.x() - pr && bp.x() + pr <= b.x_max);
    assert!(b.y_min <= bp.y() - pr && bp.y() + pr <= b.y_max);
    assert!(b.z_min <= bp.center_cs().z - ball.radius);
    assert!(bp.center_cs().z + ball.radius <= b.z_max);
}

// A single ball of radius 10 on the look-at axis at depth 100 under focal
// length 250: positive finite projected radius, and the center ray hits at
// depth very near 90 with the ball's own color.
#[test]
fn test_single_ball_center_hit() {
    let wv = camera();
    let color = Color::rgb(11, 22, 33);
    let ball = Ball::new(0, 0, 100 * S, 10 * S, color);
    let bp = BallProjection::new(&wv, ball).unwrap();
    assert!(bp.projected_radius() > 0);
    let g = ball_tracer(&wv, ball);
    let ray = wv.ray(0, 0);
    let hit = g.trace(0, 0, ray).expect("center ray must hit");
    let (z, _dir, c) = hit;
    assert!((z - 90 * S).abs() <= 1000, "depth {} not near {}", z, 90 * S);
    assert_eq!(c, color);
}

// A bone with equal end radii and axis-aligned centers is a cylinder: a
// ray through the exact centerline hits at one radius off-axis.
#[test]
fn test_equal_radius_bone_is_cylinder() {
    let wv = camera();
    let color = Color::rgb(77, 88, 99);
    let b1 = Ball::new(-50 * S, 0, 100 * S, 10 * S, color);
    let b2 = Ball::new(50 * S, 0, 100 * S, 10 * S, color);
    let mut g = GroupTracer::new();
    Bone::new(b1, b2).add_traceable(&mut g, &wv);
    assert_eq!(g.tracers.len(), 1);
    // the ray through screen position (0, 0) passes through (0, 0, 100),
    // the exact midpoint of the centerline
    let ray = wv.ray(0, 0);
    let (z, dir, c) = g.trace(0, 0, ray).expect("centerline ray must hit");
    assert!((z - 90 * S).abs() <= 5000, "depth {} not near {}", z, 90 * S);
    // the hit lies one radius off the centerline
    let off = dir.length();
    assert!((off - 10 * S).abs() <= 5000, "offset {} not near {}", off, 10 * S);
    assert_eq!(c, color);
}

// Two balls with disjoint screen footprints: a pixel inside one footprint
// never takes the other ball's color.
#[test]
fn test_disjoint_balls_keep_their_colors() {
    let wv = camera();
    let (g, red, blue) = two_ball_scene(&wv);
    let ray_a = wv.ray(20 * S, 20 * S);
    let (_, _, ca) = g.trace(20 * S, 20 * S, ray_a).expect("first ball hit");
    assert_eq!(ca, red);
    assert_ne!(ca, blue);
    let ray_b = wv.ray(80 * S, 30 * S);
    let (_, _, cb) = g.trace(80 * S, 30 * S, ray_b).expect("second ball hit");
    assert_eq!(cb, blue);
}

// Pruning a group whose box lies wholly outside the viewport yields
// nothing, so the draw loop never issues a trace for it.
#[test]
fn test_prune_outside_viewport() {
    let wv = camera();
    let (g, _, _) = two_ball_scene(&wv);
    let outside = RenderingParameters {
        pixel_size: S,
        x_min: 500 * S,
        x_max: 600 * S,
        y_min: 500 * S,
        y_max: 600 * S,
    };
    assert!(g.prune(&outside).is_none());
    let inside = RenderingParameters {
        pixel_size: S,
        x_min: 0,
        x_max: 128 * S,
        y_min: 0,
        y_max: 128 * S,
    };
    assert!(g.prune(&inside).is_some());
}

// Pruning is idempotent: pruning the pruned tree again under the same
// viewport keeps the same bounds and the same per-pixel trace.
#[test]
fn test_prune_idempotent() {
    let wv = camera();
    let (g, _, _) = two_ball_scene(&wv);
    let params = RenderingParameters {
        pixel_size: S,
        x_min: 0,
        x_max: 128 * S,
        y_min: 0,
        y_max: 128 * S,
    };
    let once = g.prune(&params).expect("scene survives");
    let twice = once.prune(&params).expect("pruned scene survives");
    assert_eq!(once.bounds(), twice.bounds());
    for (px, py) in [(20i64, 20i64), (80, 30), (64, 64), (5, 90), (127, 127)] {
        let (x, y) = (px * S, py * S);
        let ray = wv.ray(x, y);
        let a = once.trace(x, y, ray);
        let b = twice.trace(x, y, ray);
        assert_eq!(a.is_some(), b.is_some());
        if let (Some((za, da, ca)), Some((zb, db, cb))) = (a, b) {
            assert_eq!(za, zb);
            assert_eq!(da, db);
            assert_eq!(ca, cb);
        }
    }
}

// The four quadrant renders, stitched together, reproduce the unsplit
// full-image render pixel for pixel.
#[test]
fn test_quadrants_stitch_to_full_image() {
    let wv = camera();
    let background = Color::rgb(1, 2, 3);
    let (g, _, _) = two_ball_scene(&wv);
    let full_tracer = Tracer::GroupT(g.clone());
    let mut full = Raster::new(128, 128, background);
    full_tracer.draw(&wv, &mut full);

    // there must be something to compare: both footprints show
    assert_ne!(full.get(20, 20), background);
    assert_ne!(full.get(80, 30), background);

    for quadrant in 1u8..=4 {
        let qt = QuadrantTracer::new(&wv, Tracer::GroupT(g.clone()), 128, quadrant);
        let mut part = Raster::new(64, 64, background);
        Tracer::QuadrantT(qt).draw(&wv, &mut part);
        let (ox, oy) = match quadrant {
            1 => (0usize, 0usize),
            2 => (64, 0),
            3 => (0, 64),
            _ => (64, 64),
        };
        for y in 0..64usize {
            for x in 0..64usize {
                assert_eq!(
                    part.get(x, y),
                    full.get(ox + x, oy + y),
                    "quadrant {} differs at ({}, {})",
                    quadrant,
                    x,
                    y
                );
            }
        }
    }
}

// The draw loop writes hit pixels and leaves the rest untouched.
#[test]
fn test_draw_single_ball() {
    let wv = camera();
    let background = Color::rgb(9, 9, 9);
    let color = Color::rgb(200, 150, 20);
    let ball = Ball::new(20 * S, 20 * S, 100 * S, 8 * S, color);
    let g = ball_tracer(&wv, ball);
    let mut raster = Raster::new(128, 128, background);
    Tracer::GroupT(g).draw(&wv, &mut raster);
    // the projected center is at pixel (50, 50)
    assert_eq!(raster.get(50, 50), color);
    assert_eq!(raster.get(0, 127), background);
    assert_eq!(raster.get(127, 0), background);
}

// Moving a ball to a fixed distance from an anchor puts it on the line
// through the two centers.
#[test]
fn test_ball_set_distance() {
    let anchor = Ball::new(0, 0, 0, 5 * S, Color::white());
    let mut b = Ball::new(10 * S, 0, 0, 2 * S, Color::black());
    b.set_distance(3 * S, &anchor);
    assert_eq!(b.center, Vector::new(3 * S, 0, 0));
    let mut c = Ball::new(0, 8 * S, 0, 2 * S, Color::black());
    c.move_to_sphere(&anchor);
    assert_eq!(c.center, Vector::new(0, 5 * S, 0));
    let mut d = Ball::new(0, 0, 9 * S, 2 * S, Color::black());
    d.set_gap(S, &anchor);
    assert_eq!(d.center, Vector::new(0, 0, 8 * S));
}

// Polygonizing a bone with no warp collapses to a single straight
// segment: every intermediate sample is merged away as collinear.
#[test]
fn test_unwarped_polygonization_collapses() {
    let wv = camera();
    let color = Color::rgb(50, 60, 70);
    let b1 = Ball::new(-50 * S, 0, 100 * S, 10 * S, color);
    let b2 = Ball::new(50 * S, 0, 100 * S, 10 * S, color);
    let mut g = GroupTracer::new();
    Bone::new(b1, b2).add_traceable_warped(&mut g, &wv, None, None);
    assert_eq!(g.tracers.len(), 1);
    let ray = wv.ray(0, 0);
    let (z, _, c) = g.trace(0, 0, ray).expect("centerline ray must hit");
    assert!((z - 90 * S).abs() <= 5000);
    assert_eq!(c, color);
}

// A genuinely warped bone polygonizes into several segments, and a ray
// through the warped midline still hits.
#[test]
fn test_warped_polygonization_bends() {
    let wv = camera();
    let color = Color::rgb(50, 60, 70);
    let b1 = Ball::new(-30 * S, 0, 100 * S, 8 * S, color);
    let b2 = Ball::new(30 * S, 0, 100 * S, 8 * S, color);
    // a parabolic bulge: the warp peaks mid-bone by a fifth of the length
    let mut table: Vec<i64> = Vec::new();
    for i in 0..256i64 {
        let f = i * S / 255;
        let bulge = (f as i128 * (S - f) as i128 * 4 / 5 / S as i128) as i64;
        table.push(f + bulge);
    }
    let mut g = GroupTracer::new();
    Bone::new(b1, b2).add_traceable_warped(&mut g, &wv, Some(&table), None);
    assert!(g.tracers.len() > 4, "only {} segments", g.tracers.len());
    assert!(g.tracers.len() <= 255);
    let ray = wv.ray(0, 0);
    assert!(g.trace(0, 0, ray).is_some());
}
