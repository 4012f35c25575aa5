//! A render can be repeated.
//!
//! The library draws no random numbers of its own: they come from the source
//! of draws, and from the materials where those scatter at random. Where the
//! source gives one draw for each sample of each pixel, each material one
//! answer for each ray that hits it, and the background one colour for each
//! ray, nothing is left to chance: every ray has one way through the scene,
//! sees one colour, and every pixel has one colour. Two renders then give the
//! same image, whichever worker renders which rows.

use crate::buffer::{pixel_index, PixelBuffer};
use crate::camera::{Camera, Ray};
use crate::color::{average, models, Color};
use crate::integrator::{answers, bounced, is_ray_color, Hittable, Path, PathEnd};
use crate::sampling::{are_samples, is_pixel_color, is_sample, Draw};
use crate::worker::is_render;
use vstd::prelude::*;

verus! {

/// Whether every material of the scene gives one answer and no other when
/// it is asked to scatter a ray that hits it.
pub open spec fn steady_scene<S: Hittable>(scene: S) -> bool {
    forall|ray: Ray, a: Option<(Color, Ray)>, b: Option<(Color, Ray)>|
        #![trigger answers(scene, ray, a), answers(scene, ray, b)]
        answers(scene, ray, a) && answers(scene, ray, b) ==> a == b
}

/// Whether the background shows one colour and no other along a ray.
pub open spec fn steady_background<B: Fn(Ray) -> Color>(background: B) -> bool {
    forall|ray: Ray, a: Color, b: Color|
        #![trigger call_ensures(background, (ray,), a), call_ensures(background, (ray,), b)]
        call_ensures(background, (ray,), a) && call_ensures(background, (ray,), b) ==> a == b
}

/// Whether the source gives one draw and no other for a sample of a pixel.
pub open spec fn steady_draw<D: Fn(usize, usize, u16) -> Draw>(draw: D) -> bool {
    forall|row: usize, col: usize, k: u16, a: Draw, b: Draw|
        #![trigger call_ensures(draw, (row, col, k), a), call_ensures(draw, (row, col, k), b)]
        call_ensures(draw, (row, col, k), a) && call_ensures(draw, (row, col, k), b) ==> a == b
}

/// Two ways of one ray through a steady scene agree as far as both go.
proof fn lemma_same_start<S: Hittable>(scene: S, ray: Ray, depth: nat, p: Path, q: Path, n: int)
    requires
        steady_scene(scene),
        p.follows(scene, ray, depth),
        q.follows(scene, ray, depth),
        0 <= n <= p.tints@.len(),
        n <= q.tints@.len(),
    ensures
        forall|i: int| 0 <= i <= n ==> p.rays@[i] == q.rays@[i],
        forall|i: int| 0 <= i < n ==> p.tints@[i] == q.tints@[i],
    decreases n,
{
    if n > 0 {
        lemma_same_start(scene, ray, depth, p, q, n - 1);
        let r = p.rays@[n - 1];
        assert(bounced(scene, p.rays@[n - 1], p.tints@[n - 1], p.rays@[n - 1 + 1]));
        assert(bounced(scene, q.rays@[n - 1], q.tints@[n - 1], q.rays@[n - 1 + 1]));
        let a = Some((p.tints@[n - 1], p.rays@[n]));
        let b = Some((q.tints@[n - 1], q.rays@[n]));
        assert(answers(scene, r, a) && answers(scene, r, b));
    }
}

/// A path that goes on where another ends does not follow the same ray.
proof fn lemma_no_longer_way<S: Hittable>(scene: S, ray: Ray, depth: nat, p: Path, q: Path)
    requires
        steady_scene(scene),
        p.follows(scene, ray, depth),
        q.follows(scene, ray, depth),
    ensures
        p.tints@.len() >= q.tints@.len(),
{
    let n = p.tints@.len() as int;
    if n < q.tints@.len() {
        lemma_same_start(scene, ray, depth, p, q, n);
        assert(p.last == q.rays@[n]);
        assert(bounced(scene, q.rays@[n], q.tints@[n], q.rays@[n + 1]));
        let b = Some((q.tints@[n], q.rays@[n + 1]));
        assert(answers(scene, p.last, b));
        match p.end {
            PathEnd::Escaped => {},
            PathEnd::Exhausted => {},
            PathEnd::Absorbed => {
                assert(answers(scene, p.last, None));
            },
        }
    }
}

/// In a steady scene a ray has one way and no other.
pub proof fn lemma_one_way<S: Hittable>(scene: S, ray: Ray, depth: nat, p: Path, q: Path)
    requires
        steady_scene(scene),
        p.follows(scene, ray, depth),
        q.follows(scene, ray, depth),
    ensures
        p.rays@ == q.rays@,
        p.tints@ == q.tints@,
        p.last == q.last,
        p.end == q.end,
{
    lemma_no_longer_way(scene, ray, depth, p, q);
    lemma_no_longer_way(scene, ray, depth, q, p);
    let n = p.tints@.len() as int;
    lemma_same_start(scene, ray, depth, p, q, n);
    assert(p.rays@ =~= q.rays@);
    assert(p.tints@ =~= q.tints@);
    match (p.end, q.end) {
        (PathEnd::Absorbed, PathEnd::Exhausted) => {},
        (PathEnd::Exhausted, PathEnd::Absorbed) => {},
        _ => {},
    }
}

/// In a steady scene before a steady background a ray sees one colour and no
/// other.
pub proof fn lemma_one_ray_color<S: Hittable, B: Fn(Ray) -> Color>(
    scene: S,
    ray: Ray,
    depth: nat,
    background: B,
    first: Color,
    second: Color,
)
    requires
        steady_scene(scene),
        steady_background(background),
        is_ray_color(scene, ray, depth, background, first),
        is_ray_color(scene, ray, depth, background, second),
    ensures
        first == second,
{
    let (p, sky_p) = choose|path: Path, sky: Color|
        {
            &&& path.follows(scene, ray, depth)
            &&& path.end is Escaped ==> call_ensures(background, (path.last,), sky)
            &&& first@ == #[trigger] path.seen(sky@)
        };
    let (q, sky_q) = choose|path: Path, sky: Color|
        {
            &&& path.follows(scene, ray, depth)
            &&& path.end is Escaped ==> call_ensures(background, (path.last,), sky)
            &&& second@ == #[trigger] path.seen(sky@)
        };
    lemma_one_way(scene, ray, depth, p, q);
    assert(first@ == second@);
}

/// With a steady source of draws, in a steady scene before a steady
/// background, a pixel has one colour and no other.
pub proof fn lemma_one_pixel_color<
    S: Hittable,
    D: Fn(usize, usize, u16) -> Draw,
    B: Fn(Ray) -> Color,
>(
    camera: Camera,
    scene: S,
    row: usize,
    col: usize,
    draw: D,
    background: B,
    first: Color,
    second: Color,
)
    requires
        steady_draw(draw),
        steady_scene(scene),
        steady_background(background),
        is_pixel_color(camera, scene, row, col, draw, background, first),
        is_pixel_color(camera, scene, row, col, draw, background, second),
    ensures
        first == second,
{
    let (sa, da, ra) = choose|samples: Seq<Color>, draws: Seq<Draw>, rays: Seq<Ray>|
        #[trigger] are_samples(camera, scene, row, col, draw, background, samples, draws, rays)
            && first@ == average(models(samples));
    let (sb, db, rb) = choose|samples: Seq<Color>, draws: Seq<Draw>, rays: Seq<Ray>|
        #[trigger] are_samples(camera, scene, row, col, draw, background, samples, draws, rays)
            && second@ == average(models(samples));
    assert forall|i: int| 0 <= i < sa.len() implies sa[i] == sb[i] by {
        assert(is_sample(camera, scene, row, col, draw, background, i as u16, da[i], ra[i], sa[i]));
        assert(is_sample(camera, scene, row, col, draw, background, i as u16, db[i], rb[i], sb[i]));
        assert(da[i] == db[i]);
        assert(ra[i].origin == rb[i].origin);
        assert(ra[i].direction == rb[i].direction);
        lemma_one_ray_color(
            scene,
            ra[i],
            camera.reflect_depth as nat,
            background,
            sa[i],
            sb[i],
        );
    }
    assert(sa =~= sb);
    assert(first@ == second@);
}

/// Two renders give the same image: with a steady source of draws, in a
/// steady scene before a steady background, an image that a render can give
/// is the only one, pixel for pixel.
pub proof fn lemma_one_image<S: Hittable, D: Fn(usize, usize, u16) -> Draw, B: Fn(Ray) -> Color>(
    camera: Camera,
    scene: S,
    draw: D,
    background: B,
    first: PixelBuffer<Color>,
    second: PixelBuffer<Color>,
)
    requires
        steady_draw(draw),
        steady_scene(scene),
        steady_background(background),
        camera.width >= 1,
        is_render(camera, scene, draw, background, first),
        is_render(camera, scene, draw, background, second),
    ensures
        first@ == second@,
{
    let width = camera.width as int;
    let height = camera.height as int;
    assert forall|i: int| 0 <= i < first@.len() implies first@[i] == second@[i] by {
        let row = i / width;
        let col = i % width;
        assert(i == row * width + col && 0 <= col < width && 0 <= row < height)
            by (nonlinear_arith)
            requires
                0 <= i < width * height,
                width >= 1,
                row == i / width,
                col == i % width,
        ;
        let r = row as usize;
        let c = col as usize;
        assert(pixel_index(width as nat, row as nat, col as nat) == i);
        assert(first.pixel(r as nat, c as nat) == first@[i]);
        assert(second.pixel(r as nat, c as nat) == second@[i]);
        lemma_one_pixel_color(
            camera,
            scene,
            r,
            c,
            draw,
            background,
            first.pixel(r as nat, c as nat),
            second.pixel(r as nat, c as nat),
        );
    }
    assert(first@ =~= second@);
}

} // verus!
