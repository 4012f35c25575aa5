use raycam::bands::Band;
use raycam::buffer::{render_band, PixelBuffer};
use std::cell::Cell;

#[test]
fn new_buffer_is_filled() {
    let buffer = PixelBuffer::new(4, 3, 9u8);
    assert_eq!(buffer.width(), 4);
    assert_eq!(buffer.height(), 3);
    assert_eq!(buffer.pixels().len(), 12);
    assert!(buffer.pixels().iter().all(|&p| p == 9));
}

#[test]
fn empty_image_has_no_pixels() {
    let buffer = PixelBuffer::new(0, 5, 1u8);
    assert_eq!(buffer.pixels().len(), 0);
}

#[test]
fn from_vec_checks_the_size() {
    assert!(PixelBuffer::from_vec(2, 3, vec![0u8; 6]).is_some());
    assert!(PixelBuffer::from_vec(2, 3, vec![0u8; 5]).is_none());
    assert!(PixelBuffer::from_vec(2, 3, vec![0u8; 7]).is_none());
    assert!(PixelBuffer::from_vec(usize::MAX, 2, vec![0u8; 6]).is_none());
    assert!(PixelBuffer::from_vec(0, 0, Vec::<u8>::new()).is_some());
}

#[test]
fn from_vec_keeps_the_order() {
    let buffer = PixelBuffer::from_vec(3, 2, vec![10, 11, 12, 20, 21, 22]).unwrap();
    assert_eq!(buffer.get(0, 0), 10);
    assert_eq!(buffer.get(0, 2), 12);
    assert_eq!(buffer.get(1, 0), 20);
    assert_eq!(buffer.get(1, 2), 22);
    assert_eq!(buffer.pixels(), &vec![10, 11, 12, 20, 21, 22]);
}

#[test]
fn render_band_goes_row_by_row() {
    let band = Band { start_row: 2, end_row: 4 };
    let local = render_band(band, 3, |row: usize, col: usize| (row, col));
    assert_eq!(local, vec![(2, 0), (2, 1), (2, 2), (3, 0), (3, 1), (3, 2)]);
}

#[test]
fn render_band_of_no_rows_is_empty() {
    let band = Band { start_row: 5, end_row: 5 };
    let local = render_band(band, 3, |row: usize, col: usize| row + col);
    assert!(local.is_empty());
}

#[test]
fn merge_band_overwrites_only_its_rows() {
    let mut buffer = PixelBuffer::new(2, 4, 0u32);
    let band = Band { start_row: 1, end_row: 3 };
    let local = vec![11, 12, 21, 22];
    buffer.merge_band(band, &local);
    assert_eq!(buffer.pixels(), &vec![0, 0, 11, 12, 21, 22, 0, 0]);
    assert_eq!(buffer.width(), 2);
    assert_eq!(buffer.height(), 4);
}

#[test]
fn merge_order_does_not_matter() {
    let width = 5;
    let height = 23;
    let workers = 4;
    let shade = |row: usize, col: usize| 1000 * row + col;
    let locals: Vec<(Band, Vec<usize>)> = (0..workers)
        .map(|id| {
            let band = Band::of_worker(id, height, workers);
            (band, render_band(band, width, shade))
        })
        .collect();
    let mut forward = PixelBuffer::new(width, height, usize::MAX);
    for (band, local) in locals.iter() {
        forward.merge_band(*band, local);
    }
    let mut backward = PixelBuffer::new(width, height, usize::MAX);
    for (band, local) in locals.iter().rev() {
        backward.merge_band(*band, local);
    }
    assert_eq!(forward.pixels(), backward.pixels());
    for row in 0..height {
        for col in 0..width {
            assert_eq!(forward.get(row, col), shade(row, col));
        }
    }
}

#[test]
fn counter_reaches_the_number_of_pixels() {
    let width = 16;
    let height = 100;
    let workers = 12;
    let counter = Cell::new(0usize);
    for id in 0..workers {
        let band = Band::of_worker(id, height, workers);
        let local = render_band(band, width, |_row: usize, _col: usize| {
            counter.set(counter.get() + 1);
            0u8
        });
        assert_eq!(local.len(), band.row_count() * width);
    }
    assert_eq!(counter.get(), width * height);
}
