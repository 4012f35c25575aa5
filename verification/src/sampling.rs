//! The colour of a pixel: the mean of what a number of rays see that are
//! aimed at random points of the pixel, from random points of the lens.

use crate::camera::{Camera, Offset, Ray};
use crate::color::{average, lemma_steady_mean, mean_color, models, Color};
use crate::fixed::{HALF, ONE};
use crate::integrator::{
    holds_nothing, hits, is_ray_color, ray_color, Hittable, T_MAX, T_MIN,
};
use vstd::prelude::*;

verus! {

/// The random numbers of one sample.
#[derive(Clone, Copy, Debug, PartialEq, Eq, Structural)]
pub struct Draw {
    /// Where in the pixel the sample aims: an offset from the centre of at
    /// most half a pixel either way.
    pub jitter: Offset,
    /// Where on the lens the ray starts: a point of the unit disk. It is not
    /// used when the camera is a pinhole.
    pub lens: Offset,
}

impl Draw {
    /// Whether the numbers lie in their ranges.
    pub open spec fn wf(self) -> bool {
        self.jitter.within(HALF as int) && self.lens.within(ONE as int)
    }
}

/// Whether `ray` is the ray that the draw `d` gives for pixel (`row`, `col`).
pub open spec fn is_sample_ray(camera: Camera, row: int, col: int, d: Draw, ray: Ray) -> bool {
    &&& ray.origin@ == camera.spec_ray_origin(d.lens)
    &&& ray.direction@ == camera.spec_target(row, col, d.jitter).minus(
        camera.spec_ray_origin(d.lens),
    )
}

/// Whether the background shows the colour `c` along every ray that can be
/// drawn for pixel (`row`, `col`).
pub open spec fn background_is<D: Fn(usize, usize, u16) -> Draw, B: Fn(Ray) -> Color>(
    camera: Camera,
    row: usize,
    col: usize,
    draw: D,
    background: B,
    c: Color,
) -> bool {
    forall|k: u16, d: Draw, ray: Ray, seen: Color|
        #![trigger call_ensures(draw, (row, col, k), d), call_ensures(background, (ray,), seen)]
        call_ensures(draw, (row, col, k), d) && is_sample_ray(
            camera,
            row as int,
            col as int,
            d,
            ray,
        ) && call_ensures(background, (ray,), seen) ==> seen == c
}

/// Whether `seen` can be what sample `k` of pixel (`row`, `col`) sees: the
/// draw `d` is taken for it, it gives the ray `ray` for the pixel, and `seen`
/// is seen along that ray.
pub open spec fn is_sample<S: Hittable, D: Fn(usize, usize, u16) -> Draw, B: Fn(Ray) -> Color>(
    camera: Camera,
    scene: S,
    row: usize,
    col: usize,
    draw: D,
    background: B,
    k: u16,
    d: Draw,
    ray: Ray,
    seen: Color,
) -> bool {
    &&& call_ensures(draw, (row, col, k), d)
    &&& is_sample_ray(camera, row as int, col as int, d, ray)
    &&& is_ray_color(scene, ray, camera.reflect_depth as nat, background, seen)
}

/// Whether `samples` can be what the samples of pixel (`row`, `col`) see:
/// one colour for each of the camera's samples, each seen along the ray that
/// a draw gives for the pixel.
pub open spec fn are_samples<S: Hittable, D: Fn(usize, usize, u16) -> Draw, B: Fn(Ray) -> Color>(
    camera: Camera,
    scene: S,
    row: usize,
    col: usize,
    draw: D,
    background: B,
    samples: Seq<Color>,
    draws: Seq<Draw>,
    rays: Seq<Ray>,
) -> bool {
    &&& samples.len() == camera.sample_num
    &&& draws.len() == samples.len()
    &&& rays.len() == samples.len()
    &&& forall|i: int|
        0 <= i < samples.len() ==> #[trigger] is_sample(
            camera,
            scene,
            row,
            col,
            draw,
            background,
            i as u16,
            draws[i],
            rays[i],
            samples[i],
        )
}

/// Whether `c` is a colour that pixel (`row`, `col`) can have: the mean of
/// what its samples see, and in a scene that holds nothing the colour of the
/// background wherever the background shows a single colour to the pixel.
pub open spec fn is_pixel_color<S: Hittable, D: Fn(usize, usize, u16) -> Draw, B: Fn(Ray) -> Color>(
    camera: Camera,
    scene: S,
    row: usize,
    col: usize,
    draw: D,
    background: B,
    c: Color,
) -> bool {
    &&& exists|samples: Seq<Color>, draws: Seq<Draw>, rays: Seq<Ray>|
        #[trigger] are_samples(camera, scene, row, col, draw, background, samples, draws, rays) && c@
            == average(models(samples))
    &&& forall|sky: Color|
        holds_nothing(scene) && #[trigger] background_is(camera, row, col, draw, background, sky)
            ==> c == sky
}

/// The colour of pixel (`row`, `col`): for each of the camera's samples a
/// draw is taken, a ray is aimed as the draw says and followed through the
/// scene; the result is the arithmetic mean of what the rays see.
///
/// In a scene that holds nothing every ray sees the background. So where the
/// background shows one colour along all rays of the pixel, above all where
/// no draw moves the ray off the centre of the pixel, the pixel has that
/// colour.
pub fn pixel_color<S: Hittable, D: Fn(usize, usize, u16) -> Draw, B: Fn(Ray) -> Color>(
    camera: &Camera,
    scene: &S,
    row: usize,
    col: usize,
    draw: &D,
    background: &B,
) -> (mean: Color)
    requires
        camera.wf(),
        row < camera.height,
        col < camera.width,
        forall|r: usize, c: usize, k: u16| call_requires(*draw, (r, c, k)),
        forall|r: usize, c: usize, k: u16, d: Draw|
            #[trigger] call_ensures(*draw, (r, c, k), d) ==> d.wf(),
        forall|r: Ray| call_requires(*background, (r,)),
    ensures
        is_pixel_color(*camera, *scene, row, col, *draw, *background, mean),
{
    let mut samples: Vec<Color> = Vec::new();
    let ghost mut draws: Seq<Draw> = Seq::empty();
    let ghost mut rays: Seq<Ray> = Seq::empty();
    let mut i: u16 = 0;
    while i < camera.sample_num
        invariant
            camera.wf(),
            row < camera.height,
            col < camera.width,
            forall|r: usize, c: usize, k: u16| call_requires(*draw, (r, c, k)),
            forall|r: usize, c: usize, k: u16, d: Draw|
                #[trigger] call_ensures(*draw, (r, c, k), d) ==> d.wf(),
            forall|r: Ray| call_requires(*background, (r,)),
            i <= camera.sample_num,
            samples@.len() == i,
            draws.len() == i,
            rays.len() == i,
            forall|k: int|
                0 <= k < i ==> #[trigger] is_sample(
                    *camera,
                    *scene,
                    row,
                    col,
                    *draw,
                    *background,
                    k as u16,
                    draws[k],
                    rays[k],
                    samples@[k],
                ),
            forall|c: Color, k: int|
                holds_nothing(*scene) && #[trigger] background_is(
                    *camera,
                    row,
                    col,
                    *draw,
                    *background,
                    c,
                ) && 0 <= k < i ==> #[trigger] samples@[k] == c,
        decreases camera.sample_num - i,
    {
        let d = draw(row, col, i);
        let ray = camera.sample_ray(row, col, d.jitter, d.lens);
        let seen = ray_color(&ray, scene, camera.reflect_depth, background);
        let ghost earlier = samples@;
        let ghost earlier_draws = draws;
        let ghost earlier_rays = rays;
        samples.push(seen);
        proof {
            draws = draws.push(d);
            rays = rays.push(ray);
            assert forall|k: int| 0 <= k < i + 1 implies #[trigger] is_sample(
                *camera,
                *scene,
                row,
                col,
                *draw,
                *background,
                k as u16,
                draws[k],
                rays[k],
                samples@[k],
            ) by {
                if k < i {
                    assert(is_sample(
                        *camera,
                        *scene,
                        row,
                        col,
                        *draw,
                        *background,
                        k as u16,
                        earlier_draws[k],
                        earlier_rays[k],
                        earlier[k],
                    ));
                }
            }
        }
        i += 1;
    }
    let mean = mean_color(&samples);
    assert(are_samples(
        *camera,
        *scene,
        row,
        col,
        *draw,
        *background,
        samples@,
        draws,
        rays,
    ));
    assert forall|c: Color|
        holds_nothing(*scene) && #[trigger] background_is(
            *camera,
            row,
            col,
            *draw,
            *background,
            c,
        ) implies mean == c by {
        lemma_steady_mean(models(samples@), c@);
    }
    mean
}

/// In a scene that holds nothing every sample sees the background along its
/// own ray: a pixel is the mean of what the background shows along the rays
/// that the draws give for it.
pub proof fn lemma_empty_scene_pixel<S: Hittable, D: Fn(usize, usize, u16) -> Draw, B: Fn(Ray) -> Color>(
    camera: Camera,
    scene: S,
    row: usize,
    col: usize,
    draw: D,
    background: B,
    c: Color,
)
    requires
        holds_nothing(scene),
        is_pixel_color(camera, scene, row, col, draw, background, c),
    ensures
        exists|samples: Seq<Color>, draws: Seq<Draw>, rays: Seq<Ray>|
            {
                &&& #[trigger] are_samples(
                    camera,
                    scene,
                    row,
                    col,
                    draw,
                    background,
                    samples,
                    draws,
                    rays,
                )
                &&& c@ == average(models(samples))
                &&& forall|i: int|
                    0 <= i < samples.len() ==> call_ensures(
                        background,
                        (rays[i],),
                        #[trigger] samples[i],
                    )
            },
{
    let (samples, draws, rays) = choose|samples: Seq<Color>, draws: Seq<Draw>, rays: Seq<Ray>|
        #[trigger] are_samples(camera, scene, row, col, draw, background, samples, draws, rays)
            && c@ == average(models(samples));
    assert forall|i: int| 0 <= i < samples.len() implies call_ensures(
        background,
        (rays[i],),
        #[trigger] samples[i],
    ) by {
        assert(is_sample(
            camera,
            scene,
            row,
            col,
            draw,
            background,
            i as u16,
            draws[i],
            rays[i],
            samples[i],
        ));
        assert(!hits(scene, rays[i], T_MIN, T_MAX));
    }
}

} // verus!
