use raycam::buffer::PixelBuffer;
use raycam::color::quantize;
use raycam::ppm::{encode, header, write_decimal, write_pixel, Rgb};
use raycam::vec3::Vec3;

fn decimal(n: u64) -> String {
    let mut out = Vec::new();
    write_decimal(&mut out, n);
    String::from_utf8(out).unwrap()
}

#[test]
fn decimal_numerals() {
    assert_eq!(decimal(0), "0");
    assert_eq!(decimal(7), "7");
    assert_eq!(decimal(10), "10");
    assert_eq!(decimal(255), "255");
    assert_eq!(decimal(1080), "1080");
    assert_eq!(decimal(65535), "65535");
    assert_eq!(decimal(u64::MAX), "18446744073709551615");
}

#[test]
fn decimal_agrees_with_std() {
    for n in (0u64..5000).chain([99_999, 100_000, 1 << 40, u64::MAX - 1]) {
        assert_eq!(decimal(n), format!("{}", n));
    }
}

#[test]
fn decimal_appends() {
    let mut out = vec![b'x'];
    write_decimal(&mut out, 42);
    assert_eq!(out, b"x42");
}

#[test]
fn header_of_full_hd() {
    assert_eq!(header(1920, 1080), b"P3\n1920 1080\n255\n");
}

#[test]
fn header_of_one_pixel() {
    assert_eq!(header(1, 1), b"P3\n1 1\n255\n");
}

#[test]
fn pixel_line() {
    let mut out = Vec::new();
    write_pixel(&mut out, Rgb { r: 0, g: 128, b: 255 });
    assert_eq!(out, b"0 128 255\n");
}

#[test]
fn encode_small_image() {
    let pixels = vec![
        Rgb { r: 255, g: 0, b: 0 },
        Rgb { r: 0, g: 255, b: 0 },
        Rgb { r: 0, g: 0, b: 255 },
        Rgb { r: 1, g: 22, b: 133 },
        Rgb { r: 9, g: 10, b: 11 },
        Rgb { r: 0, g: 0, b: 0 },
    ];
    let image = PixelBuffer::from_vec(3, 2, pixels).unwrap();
    let text = encode(&image);
    assert_eq!(
        String::from_utf8(text).unwrap(),
        "P3\n3 2\n255\n255 0 0\n0 255 0\n0 0 255\n1 22 133\n9 10 11\n0 0 0\n"
    );
}

#[test]
fn header_declares_the_size_of_the_buffer() {
    for (width, height) in [(1usize, 1usize), (3, 2), (16, 9), (40, 25)] {
        let image = PixelBuffer::new(width, height, Rgb { r: 1, g: 2, b: 3 });
        let text = String::from_utf8(encode(&image)).unwrap();
        let mut lines = text.lines();
        assert_eq!(lines.next(), Some("P3"));
        let size: Vec<usize> =
            lines.next().unwrap().split(' ').map(|n| n.parse().unwrap()).collect();
        assert_eq!(size, vec![width, height]);
        assert_eq!(lines.next(), Some("255"));
        assert_eq!(lines.count(), image.pixels().len());
        assert_eq!(image.pixels().len(), width * height);
    }
}

#[test]
fn encode_after_quantizing() {
    let one = 1i64 << 32;
    let colors = vec![Vec3::new(one, one / 4, 0), Vec3::new(-one, 2 * one, one / 2)];
    let pixels: Vec<Rgb> = colors.iter().map(|c| quantize(*c)).collect();
    let image = PixelBuffer::from_vec(2, 1, pixels).unwrap();
    assert_eq!(
        String::from_utf8(encode(&image)).unwrap(),
        "P3\n2 1\n255\n255 128 0\n0 255 181\n"
    );
}
