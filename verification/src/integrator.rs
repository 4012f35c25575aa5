//! The path integrator.
//!
//! The colour seen along a ray is found by following the ray from surface to
//! surface. At each surface the material either absorbs the ray or scatters
//! it and tints what comes back along the scattered ray. A ray that leaves the
//! scene sees the background. A path may bounce only as often as its depth
//! budget allows: when the budget is used up, a ray that still hits a surface
//! sees black.
//!
//! What the scene holds and how its materials scatter is up to the
//! implementations of `Hittable` and `Material`. A scene can say what it
//! holds along a ray, and a material what it can answer; the way of a ray is
//! stated over what they say, and nothing more is assumed of them.

use crate::camera::{Point, Ray};
use crate::color::{black, models, tint, tinted, Color};
use crate::vec3::{Vec3, V3};
use vstd::prelude::*;

verus! {

/// Nearest distance along a ray at which a hit counts: 0.001. A scattered ray
/// must not hit the surface that it has just left.
pub const T_MIN: i64 = 4294967;

/// Farthest distance along a ray at which a hit counts.
pub const T_MAX: i64 = i64::MAX;

/// Where and how a ray hits a surface.
pub struct HitRecord<'a, M> {
    /// The point that was hit.
    pub point: Point,
    /// The normal of the surface at that point.
    pub normal: Vec3,
    /// The distance from the origin of the ray, in lengths of its direction.
    pub t: i64,
    /// What the surface is made of.
    pub material: &'a M,
}

/// What a surface does with the light that falls on it.
pub trait Material: Sized {
    /// Whether `answer` is an answer that the material can give when it is
    /// asked to scatter the ray `ray_in` that hit it as `hit` tells. A material
    /// may scatter at random, so there can be many such answers. A material
    /// that does not say what it can answer allows every answer.
    open spec fn may_answer(
        &self,
        ray_in: Ray,
        hit: HitRecord<Self>,
        answer: Option<(Color, Ray)>,
    ) -> bool {
        true
    }

    /// Scatters the ray that hit the surface as `hit` tells. The result is the
    /// tint of the surface and the scattered ray, or `None` when the surface
    /// absorbs the ray.
    fn scatter(&self, ray_in: &Ray, hit: &HitRecord<Self>) -> (answer: Option<(Color, Ray)>)
        ensures
            self.may_answer(*ray_in, *hit, answer),
    ;
}

/// What a ray can hit: a scene.
pub trait Hittable {
    /// What the surfaces of the scene are made of.
    type Surface: Material;

    /// What the scene holds along the ray at a distance between `t_min` and
    /// `t_max`: the nearest hit, or `None`. A scene does not change while it
    /// is rendered, so this depends on the ray and the range alone. A scene
    /// that does not say what it holds leaves that unknown.
    open spec fn found(&self, ray: Ray, t_min: i64, t_max: i64) -> Option<
        HitRecord<'_, Self::Surface>,
    > {
        arbitrary()
    }

    /// The nearest hit of the ray at a distance between `t_min` and `t_max`,
    /// or `None` when the ray hits nothing there.
    fn hit(&self, ray: &Ray, t_min: i64, t_max: i64) -> (found: Option<
        HitRecord<'_, Self::Surface>,
    >)
        ensures
            found == self.found(*ray, t_min, t_max),
    ;
}

/// Whether the ray hits a surface of the scene at a distance between `t_min`
/// and `t_max`.
pub open spec fn hits<S: Hittable>(scene: S, ray: Ray, t_min: i64, t_max: i64) -> bool {
    scene.found(ray, t_min, t_max) is Some
}

/// Whether the scene holds nothing: no ray hits it anywhere.
pub open spec fn holds_nothing<S: Hittable>(scene: S) -> bool {
    forall|ray: Ray, t_min: i64, t_max: i64| !#[trigger] hits(scene, ray, t_min, t_max)
}

/// Whether the ray hits a surface of the scene whose material can give the
/// answer `answer` when it is asked to scatter the ray.
pub open spec fn answers<S: Hittable>(scene: S, ray: Ray, answer: Option<(Color, Ray)>) -> bool {
    match scene.found(ray, T_MIN, T_MAX) {
        Some(hit) => hit.material.may_answer(ray, hit, answer),
        None => false,
    }
}

/// Whether the ray hits a surface of the scene whose material can scatter it
/// into the ray `next` with the tint `tint`.
pub open spec fn bounced<S: Hittable>(scene: S, ray: Ray, tint: Color, next: Ray) -> bool {
    answers(scene, ray, Some((tint, next)))
}

/// Whether the ray hits a surface of the scene whose material can absorb it.
pub open spec fn absorbed<S: Hittable>(scene: S, ray: Ray) -> bool {
    answers(scene, ray, None)
}

/// What to do with a ray once the scene has been asked what it hits.
#[derive(Clone, Copy, Debug, PartialEq, Eq, Structural)]
pub enum Probed {
    /// Nothing was hit: the ray sees the background.
    Background,
    /// A surface was hit, but no bounce is left: the ray sees black.
    Black,
    /// A surface was hit: ask its material to scatter the ray.
    Scatter,
}

/// What to do with a ray once the material it hit has been asked to scatter it.
#[derive(Clone, Copy, Debug, PartialEq, Eq, Structural)]
pub enum Scattered {
    /// The material absorbed the ray: it sees black.
    Black,
    /// Follow the scattered ray `ray` with the depth budget that is left,
    /// and tint what it sees with `tint`, the attenuation of the material.
    Follow { tint: Color, ray: Ray, depth: u8 },
}

/// How a path ended.
#[derive(Clone, Copy, Debug, PartialEq, Eq, Structural)]
pub enum PathEnd {
    /// The last ray left the scene.
    Escaped,
    /// A material absorbed the last ray.
    Absorbed,
    /// The last ray hit a surface when no bounce was left.
    Exhausted,
}

/// The way of a ray through the scene.
pub struct Path {
    /// The rays of the path: the ray that was followed, and after it the ray
    /// that each surface scattered it into.
    pub rays: Vec<Ray>,
    /// The tints of the surfaces that scattered the ray, in the order in
    /// which it met them.
    pub tints: Vec<Color>,
    /// The last ray of the path.
    pub last: Ray,
    /// How the path ended.
    pub end: PathEnd,
}

/// The colour seen along a path whose last ray sees `end`: every surface
/// tints what is seen along the rest of the path.
pub open spec fn path_color(tints: Seq<V3>, end: V3) -> V3
    decreases tints.len(),
{
    if tints.len() == 0 {
        end
    } else {
        tinted(tints.first(), path_color(tints.drop_first(), end))
    }
}

impl Path {
    /// The colour seen along the path when a ray that leaves the scene sees
    /// `background`: a path that ends on a surface sees black.
    pub open spec fn seen(&self, background: V3) -> V3 {
        path_color(
            models(self.tints@),
            if self.end is Escaped {
                background
            } else {
                V3::zero()
            },
        )
    }

    /// A path of a ray with a budget of `depth` bounces: it has bounced no
    /// more often than that, it has run out of bounces only after exactly
    /// that many, and a material was asked, and absorbed the ray, only while a
    /// bounce was left.
    pub open spec fn within_budget(&self, depth: nat) -> bool {
        &&& self.tints@.len() <= depth
        &&& self.end is Exhausted ==> self.tints@.len() == depth
        &&& self.end is Absorbed ==> self.tints@.len() < depth
    }

    /// Whether this is a way of `ray` through the scene with a budget of
    /// `depth` bounces. The path starts with `ray`. Every ray but the last
    /// hits a surface whose material can scatter it into the next ray with
    /// the tint that the path keeps for it. The last ray hits nothing if the
    /// path has left the scene, hits a surface if the path has run out of
    /// bounces, and hits a surface whose material can absorb it if the path
    /// was absorbed.
    pub open spec fn follows<S: Hittable>(&self, scene: S, ray: Ray, depth: nat) -> bool {
        &&& self.within_budget(depth)
        &&& self.rays@.len() == self.tints@.len() + 1
        &&& self.rays@[0] == ray
        &&& self.rays@.last() == self.last
        &&& forall|i: int|
            #![trigger self.tints@[i]]
            0 <= i < self.tints@.len() ==> bounced(
                scene,
                self.rays@[i],
                self.tints@[i],
                self.rays@[i + 1],
            )
        &&& match self.end {
            PathEnd::Escaped => !hits(scene, self.last, T_MIN, T_MAX),
            PathEnd::Exhausted => hits(scene, self.last, T_MIN, T_MAX),
            PathEnd::Absorbed => absorbed(scene, self.last),
        }
    }
}

/// The decision after the scene has been asked.
pub open spec fn probe_outcome(hit: bool, depth: nat) -> Probed {
    if !hit {
        Probed::Background
    } else if depth == 0 {
        Probed::Black
    } else {
        Probed::Scatter
    }
}

/// Decides what to do with a ray at depth budget `depth`, given what the
/// scene found along it. A miss sees the background whatever the budget is.
pub fn after_probe<M>(found: &Option<HitRecord<M>>, depth: u8) -> (next: Probed)
    ensures
        next == probe_outcome(found is Some, depth as nat),
        found is None ==> next == Probed::Background,
{
    if found.is_none() {
        Probed::Background
    } else if depth == 0 {
        Probed::Black
    } else {
        Probed::Scatter
    }
}

/// Decides what to do with the answer of the material that was asked to
/// scatter a ray traced with depth budget `depth`: an absorbed ray sees black;
/// a scattered one is followed, with one bounce less, and what it sees is
/// tinted with the attenuation that came with it.
pub fn after_scatter(answer: Option<(Color, Ray)>, depth: u8) -> (next: Scattered)
    requires
        depth > 0,
    ensures
        next == (match answer {
            Some(pair) => Scattered::Follow { tint: pair.0, ray: pair.1, depth: (depth - 1) as u8 },
            None => Scattered::Black,
        }),
{
    match answer {
        Some((tint, ray)) => Scattered::Follow { tint, ray, depth: depth - 1 },
        None => Scattered::Black,
    }
}

/// Black stays black through every tint.
pub proof fn lemma_black_path(tints: Seq<V3>)
    ensures
        path_color(tints, V3::zero()) == V3::zero(),
    decreases tints.len(),
{
    if tints.len() > 0 {
        lemma_black_path(tints.drop_first());
    }
}

/// Follows a ray through the scene. Each ray of the path is put to the
/// scene with the range from `T_MIN` to `T_MAX`. A ray that hits nothing ends
/// the path: it has left the scene. A ray that hits a surface when no bounce
/// is left ends the path too. Else the material of the surface is asked to
/// scatter the ray: if it absorbs the ray the path ends, and if not its tint
/// is kept and the scattered ray is followed with one bounce less.
pub fn trace_path<S: Hittable>(ray: &Ray, scene: &S, depth: u8) -> (path: Path)
    ensures
        path.follows(*scene, *ray, depth as nat),
        path.tints@.len() == 0 ==> path.last == *ray,
        (path.end is Escaped && path.tints@.len() == 0) <==> !hits(*scene, *ray, T_MIN, T_MAX),
        path.end is Escaped <==> !hits(*scene, path.last, T_MIN, T_MAX),
{
    let mut rays: Vec<Ray> = Vec::new();
    rays.push(*ray);
    let mut tints: Vec<Color> = Vec::new();
    let mut current: Ray = *ray;
    let mut budget: u8 = depth;
    loop
        invariant
            tints@.len() + budget == depth,
            rays@.len() == tints@.len() + 1,
            rays@[0] == *ray,
            rays@.last() == current,
            forall|i: int|
                #![trigger tints@[i]]
                0 <= i < tints@.len() ==> bounced(*scene, rays@[i], tints@[i], rays@[i + 1]),
        decreases budget,
    {
        let found = scene.hit(&current, T_MIN, T_MAX);
        match after_probe(&found, budget) {
            Probed::Background => {
                proof {
                    lemma_first_bounce(*scene, rays@, tints@);
                }
                return Path { rays, tints, last: current, end: PathEnd::Escaped };
            },
            Probed::Black => {
                proof {
                    lemma_first_bounce(*scene, rays@, tints@);
                }
                return Path { rays, tints, last: current, end: PathEnd::Exhausted };
            },
            Probed::Scatter => {
                let hit = found.unwrap();
                let material: &S::Surface = hit.material;
                let answer = material.scatter(&current, &hit);
                match after_scatter(answer, budget) {
                    Scattered::Black => {
                        proof {
                            lemma_first_bounce(*scene, rays@, tints@);
                        }
                        return Path { rays, tints, last: current, end: PathEnd::Absorbed };
                    },
                    Scattered::Follow { tint, ray: scattered, depth: left } => {
                        let ghost earlier_rays = rays@;
                        let ghost earlier_tints = tints@;
                        tints.push(tint);
                        rays.push(scattered);
                        proof {
                            assert(bounced(*scene, current, tint, scattered));
                            assert forall|i: int|
                                #![trigger tints@[i]]
                                0 <= i < tints@.len() implies bounced(
                                *scene,
                                rays@[i],
                                tints@[i],
                                rays@[i + 1],
                            ) by {
                                if i < earlier_tints.len() {
                                    assert(tints@[i] == earlier_tints[i]);
                                    assert(rays@[i] == earlier_rays[i]);
                                    assert(rays@[i + 1] == earlier_rays[i + 1]);
                                }
                            }
                        }
                        current = scattered;
                        budget = left;
                    },
                }
            },
        }
    }
}

/// A path that has bounced started with a ray that hit a surface.
proof fn lemma_first_bounce<S: Hittable>(scene: S, rays: Seq<Ray>, tints: Seq<Color>)
    requires
        rays.len() == tints.len() + 1,
        forall|i: int|
            #![trigger tints[i]]
            0 <= i < tints.len() ==> bounced(scene, rays[i], tints[i], rays[i + 1]),
    ensures
        tints.len() > 0 ==> hits(scene, rays[0], T_MIN, T_MAX),
{
    if tints.len() > 0 {
        assert(bounced(scene, rays[0], tints[0], rays[1]));
    }
}

/// The colour seen along a path, when a ray that leaves the scene sees
/// `background`.
pub fn shade_path(path: &Path, background: Color) -> (seen: Color)
    ensures
        seen@ == path.seen(background@),
        !(path.end is Escaped) ==> seen@ == V3::zero(),
{
    let ghost all = models(path.tints@);
    let count: usize = path.tints.len();
    let mut seen: Color = match path.end {
        PathEnd::Escaped => background,
        _ => black(),
    };
    let ghost end = seen@;
    let mut i: usize = count;
    while i > 0
        invariant
            i <= count,
            count == path.tints@.len(),
            all == models(path.tints@),
            seen@ == path_color(all.subrange(i as int, count as int), end),
        decreases i,
    {
        i -= 1;
        proof {
            let rest = all.subrange(i as int, count as int);
            assert(rest.drop_first() =~= all.subrange(i + 1, count as int));
        }
        seen = tint(path.tints[i], seen);
    }
    proof {
        assert(all.subrange(0, count as int) =~= all);
        if !(path.end is Escaped) {
            lemma_black_path(all);
        }
    }
    seen
}

/// Whether `seen` can be what is seen along `ray` in the scene with a budget
/// of `depth` bounces. A ray that hits nothing sees what the background shows
/// along it. A ray that hits a surface when it has no bounce sees black. And
/// whatever the materials answer, `seen` is the colour of a way of `ray`
/// through the scene, before the colour that the background shows to the
/// last ray if that ray leaves the scene.
pub open spec fn is_ray_color<S: Hittable, B: Fn(Ray) -> Color>(
    scene: S,
    ray: Ray,
    depth: nat,
    background: B,
    seen: Color,
) -> bool {
    &&& !hits(scene, ray, T_MIN, T_MAX) ==> call_ensures(background, (ray,), seen)
    &&& hits(scene, ray, T_MIN, T_MAX) && depth == 0 ==> seen@ == V3::zero()
    &&& exists|path: Path, sky: Color|
        {
            &&& path.follows(scene, ray, depth)
            &&& path.end is Escaped ==> call_ensures(background, (path.last,), sky)
            &&& seen@ == #[trigger] path.seen(sky@)
        }
}

/// The colour seen along `ray`: the ray is followed through the scene for
/// at most `depth` bounces, and what its last ray sees, the background when it
/// leaves the scene and black otherwise, is tinted by every surface on the
/// way.
pub fn ray_color<S: Hittable, B: Fn(Ray) -> Color>(
    ray: &Ray,
    scene: &S,
    depth: u8,
    background: &B,
) -> (seen: Color)
    requires
        forall|r: Ray| call_requires(*background, (r,)),
    ensures
        is_ray_color(*scene, *ray, depth as nat, *background, seen),
{
    let path = trace_path(ray, scene, depth);
    let sky = match path.end {
        PathEnd::Escaped => background(path.last),
        _ => black(),
    };
    let seen = shade_path(&path, sky);
    assert(seen@ == path.seen(sky@));
    seen
}

/// The scene that holds nothing.
pub struct EmptyScene;

/// A material for scenes without surfaces: it absorbs every ray.
pub struct NoMaterial;

impl Material for NoMaterial {
    open spec fn may_answer(
        &self,
        ray_in: Ray,
        hit: HitRecord<Self>,
        answer: Option<(Color, Ray)>,
    ) -> bool {
        answer is None
    }

    /// Absorbs the ray: nothing is scattered, whatever the ray and the hit
    /// are.
    fn scatter(&self, ray_in: &Ray, hit: &HitRecord<Self>) -> (scattered: Option<(Color, Ray)>)
        ensures
            scattered is None,
    {
        None
    }
}

impl Hittable for EmptyScene {
    type Surface = NoMaterial;

    open spec fn found(&self, ray: Ray, t_min: i64, t_max: i64) -> Option<
        HitRecord<'_, NoMaterial>,
    > {
        None
    }

    /// Nothing is hit, whatever the ray and the range are.
    fn hit(&self, ray: &Ray, t_min: i64, t_max: i64) -> (found: Option<HitRecord<'_, NoMaterial>>)
        ensures
            found is None,
    {
        None
    }
}

} // verus!
