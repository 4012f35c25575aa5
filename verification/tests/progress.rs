use raycam::progress::{observe, Report, Watch};

#[test]
fn nothing_done() {
    assert_eq!(observe(0, 100), Report { hundredths: 0, next: Watch::Sleep });
}

#[test]
fn half_done() {
    assert_eq!(observe(50, 100), Report { hundredths: 5000, next: Watch::Sleep });
}

#[test]
fn share_is_rounded_down() {
    assert_eq!(observe(1, 3).hundredths, 3333);
    assert_eq!(observe(2, 3).hundredths, 6666);
    assert_eq!(observe(2_073_599, 2_073_600).hundredths, 9999);
}

#[test]
fn all_done() {
    assert_eq!(observe(100, 100), Report { hundredths: 10000, next: Watch::Stop });
    assert_eq!(observe(2_073_600, 2_073_600), Report { hundredths: 10000, next: Watch::Stop });
}

#[test]
fn counter_past_the_total_still_stops() {
    assert_eq!(observe(150, 100), Report { hundredths: 10000, next: Watch::Stop });
    assert_eq!(observe(usize::MAX, 1), Report { hundredths: 10000, next: Watch::Stop });
}

#[test]
fn share_never_runs_backwards() {
    let total = 997;
    let mut last = 0;
    for completed in 0..=total {
        let report = observe(completed, total);
        assert!(report.hundredths >= last);
        assert_eq!(report.next == Watch::Stop, completed == total);
        last = report.hundredths;
    }
    assert_eq!(last, 10000);
}

#[test]
fn huge_image() {
    let report = observe(usize::MAX - 1, usize::MAX);
    assert_eq!(report, Report { hundredths: 9999, next: Watch::Sleep });
}
