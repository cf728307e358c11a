use steamlite::images::decode_images;

/// A 2×1 PNG: an opaque red pixel, then a half-transparent blue one.
const TWO_PIXELS: [u8; 71] = [
    137, 80, 78, 71, 13, 10, 26, 10, 0, 0, 0, 13, 73, 72, 68, 82, 0, 0, 0, 2, 0, 0, 0, 1, 8, 6, 0,
    0, 0, 244, 34, 127, 138, 0, 0, 0, 14, 73, 68, 65, 84, 120, 156, 99, 248, 207, 192, 0, 66, 13, 0,
    15, 122, 3, 126, 119, 233, 127, 151, 0, 0, 0, 0, 73, 69, 78, 68, 174, 66, 96, 130,
];

#[test]
fn decodes_a_png_into_rgba_pixels() {
    let out = decode_images(&vec![(570, TWO_PIXELS.to_vec())]);
    assert_eq!(out.len(), 1);
    assert_eq!(out[0].0, 570);
    assert_eq!(out[0].1.width, 2);
    assert_eq!(out[0].1.height, 1);
    assert_eq!(out[0].1.pixels, vec![255, 0, 0, 255, 0, 0, 255, 128]);
}

#[test]
fn leaves_out_what_does_not_decode_keeping_the_order() {
    let pending = vec![
        (1, b"<html>not found</html>".to_vec()),
        (2, TWO_PIXELS.to_vec()),
        (3, Vec::new()),
        (4, TWO_PIXELS.to_vec()),
    ];
    let out = decode_images(&pending);
    let ids: Vec<u64> = out.iter().map(|(id, _)| *id).collect();
    assert_eq!(ids, vec![2, 4]);
    assert!(decode_images(&Vec::new()).is_empty());
}
