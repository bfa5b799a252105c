use rt::image::Image;

#[test]
fn new_image_is_black() {
    let img = Image::new(2, 2, 2);
    assert_eq!(img.width(), 2);
    assert_eq!(img.height(), 2);
    assert_eq!(img.frame_count(), 2);
    assert_eq!(img.frame_len(0), 4);
    for f in 0..2 {
        for k in 0..4 {
            assert_eq!(img.pixel_at(f, k), [0, 0, 0]);
        }
    }
}

#[test]
fn par_init_walks_pixels_shifted_by_one() {
    let mut img = Image::new(3, 2, 1);
    img.par_init_pixels(0, |x, y| [x as u8, y as u8, 7]);
    let expected = [(1, 0), (2, 0), (0, 1), (1, 1), (2, 1), (0, 2)];
    for (k, (x, y)) in expected.iter().enumerate() {
        assert_eq!(img.pixel_at(0, k), [*x, *y, 7]);
    }
}

#[test]
fn par_init_same_function_same_image() {
    let op = |x: u32, y: u32| [(x * 31 + y) as u8, (y * 7) as u8, 3];
    let mut a = Image::new(4, 4, 1);
    let mut b = Image::new(4, 4, 1);
    a.par_init_pixels(0, op);
    b.par_init_pixels(0, op);
    for k in 0..16 {
        assert_eq!(a.pixel_at(0, k), b.pixel_at(0, k));
    }
}

#[test]
fn average_frames_blurs_into_first_frame() {
    let mut img = Image::new(1, 1, 2);
    img.par_init_pixels(0, |_, _| [2, 4, 6]);
    img.par_init_pixels(1, |_, _| [4, 8, 11]);
    img.average_frames();
    assert_eq!(img.pixel_at(0, 0), [3, 6, 8]);
    assert_eq!(img.pixel_at(1, 0), [4, 8, 11]);
}

#[test]
fn average_of_single_frame_changes_nothing() {
    let mut img = Image::new(2, 1, 1);
    img.par_init_pixels(0, |x, y| [x as u8, y as u8, 9]);
    let before: Vec<[u8; 3]> = (0..2).map(|k| img.pixel_at(0, k)).collect();
    img.average_frames();
    let after: Vec<[u8; 3]> = (0..2).map(|k| img.pixel_at(0, k)).collect();
    assert_eq!(before, after);
}

#[test]
fn ppm_bytes_exact() {
    let mut img = Image::new(2, 1, 1);
    img.par_init_pixels(0, |x, y| [x as u8, y as u8, 5]);
    let bytes = img.ppm_bytes();
    let mut expected = b"P6 2 1 255\n".to_vec();
    expected.extend_from_slice(&[1, 0, 5, 0, 1, 5]);
    assert_eq!(bytes, expected);
}

#[test]
fn png_bytes_round_trip() {
    let mut img = Image::new(2, 2, 1);
    img.par_init_pixels(0, |x, y| [x as u8 * 50, y as u8 * 80, 200]);
    let stream = img.png_bytes().unwrap();
    assert_eq!(&stream[..8], &[137, 80, 78, 71, 13, 10, 26, 10]);

    let back = Image::decode_png(&stream).unwrap();
    assert_eq!(back.width(), 2);
    assert_eq!(back.height(), 2);
    assert_eq!(back.frame_count(), 1);
    for k in 0..4 {
        assert_eq!(back.pixel_at(0, k), img.pixel_at(0, k));
    }
}

#[test]
fn apng_bytes_holds_all_frames() {
    let mut img = Image::new(1, 1, 2);
    img.par_init_pixels(0, |_, _| [10, 20, 30]);
    img.par_init_pixels(1, |_, _| [40, 50, 60]);
    let stream = img.apng_bytes(5).unwrap();
    assert_eq!(&stream[..8], &[137, 80, 78, 71, 13, 10, 26, 10]);

    let decoder = png::Decoder::new(std::io::Cursor::new(stream.as_slice()));
    let reader = decoder.read_info().unwrap();
    let animation = reader.info().animation_control.unwrap();
    assert_eq!(animation.num_frames, 2);
}

#[test]
fn decode_png_rejects_garbage() {
    let garbage = vec![1u8, 2, 3, 4];
    assert!(Image::decode_png(&garbage).is_err());
}
