//! What one worker does: it renders the rows of its band into a buffer of
//! its own and counts every pixel that it has finished. The buffers of all
//! workers, copied into one, are the image.

use crate::bands::{band_end, band_start, lemma_band_in_image, Band};
use crate::buffer::{lemma_merged_pixel, local_pixel, render_band, PixelBuffer};
use crate::camera::{Camera, Ray};
use crate::color::{black, Color};
use crate::integrator::Hittable;
use crate::sampling::{is_pixel_color, pixel_color, Draw};
use std::sync::atomic::AtomicUsize;
use std::sync::atomic::Ordering;
use vstd::prelude::*;

verus! {

/// Counts one finished pixel. The counter is shared by all workers and only
/// tells an observer how far the render is.
fn count_pixel(counter: &AtomicUsize) {
    counter.fetch_add(1, Ordering::SeqCst);
}

/// Renders the band of worker `id`: every pixel of every row of the band,
/// rows from top to bottom and each row from left to right. Each finished
/// pixel is counted once. The result is the band and its pixels in that
/// order.
pub fn work_band<S: Hittable, D: Fn(usize, usize, u16) -> Draw, B: Fn(Ray) -> Color>(
    camera: &Camera,
    scene: &S,
    id: usize,
    draw: &D,
    background: &B,
    counter: &AtomicUsize,
) -> (done: (Band, Vec<Color>))
    requires
        camera.wf(),
        id < camera.workers,
        forall|r: usize, c: usize, k: u16| call_requires(*draw, (r, c, k)),
        forall|r: usize, c: usize, k: u16, d: Draw|
            #[trigger] call_ensures(*draw, (r, c, k), d) ==> d.wf(),
        forall|r: Ray| call_requires(*background, (r,)),
    ensures
        done.0.start_row == band_start(id as nat, camera.height as nat, camera.workers as nat),
        done.0.end_row == band_end(id as nat, camera.height as nat, camera.workers as nat),
        done.1@.len() == done.0.rows() * camera.width,
        forall|row: usize, col: usize|
            done.0.contains(row as nat) && col < camera.width ==> is_pixel_color(
                *camera,
                *scene,
                row,
                col,
                *draw,
                *background,
                #[trigger] local_pixel(done.1@, camera.width as nat, done.0, row as nat, col as nat),
            ),
{
    let band = Band::of_worker(id, camera.height, camera.workers);
    proof {
        assert(band.rows() * camera.width <= 65535 * 65535) by (nonlinear_arith)
            requires
                band.rows() <= 65535,
                camera.width <= 65535,
        ;
    }
    let shade = |row: usize, col: usize| -> (c: Color)
        requires
            band.contains(row as nat),
            col < camera.width,
        ensures
            is_pixel_color(*camera, *scene, row, col, *draw, *background, c),
        {
            let c = pixel_color(camera, scene, row, col, draw, background);
            count_pixel(counter);
            c
        };
    let local = render_band(band, camera.width, shade);
    (band, local)
}

/// Whether `image` can be what a render gives: an image of the size of the
/// camera, every pixel of which is a colour of its own position.
pub open spec fn is_render<S: Hittable, D: Fn(usize, usize, u16) -> Draw, B: Fn(Ray) -> Color>(
    camera: Camera,
    scene: S,
    draw: D,
    background: B,
    image: PixelBuffer<Color>,
) -> bool {
    &&& image.wf()
    &&& image.spec_width() == camera.width
    &&& image.spec_height() == camera.height
    &&& forall|row: usize, col: usize|
        row < camera.height && col < camera.width ==> is_pixel_color(
            camera,
            scene,
            row,
            col,
            draw,
            background,
            #[trigger] image.pixel(row as nat, col as nat),
        )
}

impl Camera {
    /// Renders the whole image on the calling thread: the bands of all
    /// workers, one after the other, each copied into the image when it is
    /// done. Every pixel of the image is rendered by exactly one worker, so
    /// every pixel of the result is a colour of its own position, and the
    /// counter has been advanced once for each of them.
    pub fn render<S: Hittable, D: Fn(usize, usize, u16) -> Draw, B: Fn(Ray) -> Color>(
        &self,
        scene: &S,
        draw: &D,
        background: &B,
        counter: &AtomicUsize,
    ) -> (image: PixelBuffer<Color>)
        requires
            self.wf(),
            forall|r: usize, c: usize, k: u16| call_requires(*draw, (r, c, k)),
            forall|r: usize, c: usize, k: u16, d: Draw|
                #[trigger] call_ensures(*draw, (r, c, k), d) ==> d.wf(),
            forall|r: Ray| call_requires(*background, (r,)),
        ensures
            is_render(*self, *scene, *draw, *background, image),
    {
        proof {
            assert(self.width * self.height <= 65535 * 65535) by (nonlinear_arith)
                requires
                    self.width <= 65535,
                    self.height <= 65535,
            ;
        }
        let mut image = PixelBuffer::new(self.width, self.height, black());
        let mut id: usize = 0;
        let mut finished: usize = 0;
        while id < self.workers
            invariant
                self.wf(),
                forall|r: usize, c: usize, k: u16| call_requires(*draw, (r, c, k)),
                forall|r: usize, c: usize, k: u16, d: Draw|
                    #[trigger] call_ensures(*draw, (r, c, k), d) ==> d.wf(),
                forall|r: Ray| call_requires(*background, (r,)),
                id <= self.workers,
                image.wf(),
                image.spec_width() == self.width,
                image.spec_height() == self.height,
                finished <= self.height,
                id < self.workers ==> finished == band_start(
                    id as nat,
                    self.height as nat,
                    self.workers as nat,
                ),
                id == self.workers ==> finished == self.height,
                forall|row: usize, col: usize|
                    row < finished && col < self.width ==> is_pixel_color(
                        *self,
                        *scene,
                        row,
                        col,
                        *draw,
                        *background,
                        #[trigger] image.pixel(row as nat, col as nat),
                    ),
            decreases self.workers - id,
        {
            let (band, local) = work_band(self, scene, id, draw, background, counter);
            let ghost earlier = image;
            let ghost before = image@;
            proof {
                lemma_band_in_image(id as nat, self.height as nat, self.workers as nat);
            }
            image.merge_band(band, &local);
            proof {
                assert forall|row: usize, col: usize|
                    row < band.end_row && col < self.width implies is_pixel_color(
                    *self,
                    *scene,
                    row,
                    col,
                    *draw,
                    *background,
                    #[trigger] image.pixel(row as nat, col as nat),
                ) by {
                    lemma_merged_pixel(
                        before,
                        self.width as nat,
                        self.height as nat,
                        band,
                        local@,
                        row as nat,
                        col as nat,
                    );
                    if band.contains(row as nat) {
                        assert(image.pixel(row as nat, col as nat) == local_pixel(
                            local@,
                            self.width as nat,
                            band,
                            row as nat,
                            col as nat,
                        ));
                    } else {
                        assert(image.pixel(row as nat, col as nat) == earlier.pixel(
                            row as nat,
                            col as nat,
                        ));
                    }
                }
            }
            finished = band.end_row;
            id += 1;
        }
        image
    }
}

} // verus!
