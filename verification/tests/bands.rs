use raycam::bands::Band;

#[test]
fn hundred_rows_twelve_workers() {
    let chunk = 100 / 12;
    for id in 0..11 {
        let band = Band::of_worker(id, 100, 12);
        assert_eq!(band.start_row, id * chunk);
        assert_eq!(band.end_row, (id + 1) * chunk);
        assert_eq!(band.row_count(), 8);
    }
    let last = Band::of_worker(11, 100, 12);
    assert_eq!(last.start_row, 88);
    assert_eq!(last.end_row, 100);
    assert_eq!(last.row_count(), 100 - 11 * (100 / 12));
    assert_eq!(last.row_count(), 12);
}

#[test]
fn full_hd_rows_split_evenly() {
    for id in 0..12 {
        let band = Band::of_worker(id, 1080, 12);
        assert_eq!(band, Band { start_row: id * 90, end_row: (id + 1) * 90 });
    }
}

#[test]
fn every_row_has_exactly_one_worker() {
    for height in [0usize, 1, 5, 11, 12, 13, 100, 1080, 1081] {
        for workers in [1usize, 2, 3, 7, 12, 16] {
            let mut owners = vec![0usize; height];
            for id in 0..workers {
                let band = Band::of_worker(id, height, workers);
                assert!(band.start_row <= band.end_row);
                assert!(band.end_row <= height);
                for row in band.start_row..band.end_row {
                    owners[row] += 1;
                }
            }
            assert!(owners.iter().all(|&n| n == 1), "height {height}, workers {workers}");
        }
    }
}

#[test]
fn bands_follow_one_another() {
    let height = 1000;
    let workers = 7;
    let mut next = 0;
    for id in 0..workers {
        let band = Band::of_worker(id, height, workers);
        assert_eq!(band.start_row, next);
        next = band.end_row;
    }
    assert_eq!(next, height);
}

#[test]
fn fewer_rows_than_workers_all_go_to_the_last() {
    for id in 0..11 {
        let band = Band::of_worker(id, 5, 12);
        assert_eq!(band.row_count(), 0);
        assert_eq!(band.start_row, 0);
        assert_eq!(band.end_row, 0);
    }
    assert_eq!(Band::of_worker(11, 5, 12), Band { start_row: 0, end_row: 5 });
}

#[test]
fn single_worker_takes_the_whole_image() {
    assert_eq!(Band::of_worker(0, 1080, 1), Band { start_row: 0, end_row: 1080 });
}

#[test]
fn last_band_is_never_smaller_than_the_others() {
    for height in 1usize..200 {
        let workers = 12;
        let chunk = height / workers;
        let last = Band::of_worker(workers - 1, height, workers);
        assert!(last.row_count() >= chunk);
        assert_eq!(last.row_count(), height - (workers - 1) * chunk);
    }
}

#[test]
fn bands_hold_every_pixel_once() {
    let width = 37;
    for (height, workers) in [(100usize, 12usize), (1080, 12), (7, 3), (3, 7)] {
        let mut pixels = 0;
        for id in 0..workers {
            pixels += Band::of_worker(id, height, workers).row_count() * width;
        }
        assert_eq!(pixels, width * height);
    }
}
