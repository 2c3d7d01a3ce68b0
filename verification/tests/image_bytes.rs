use perceptron::cli::argument_if_set;
use perceptron::image_bytes::image_from_bytes;
use perceptron::image_bytes::mask_to_bytes;
use perceptron::image_bytes::pixels_to_bytes;
use perceptron::image_bytes::weights_from_bytes;
use perceptron::image_bytes::weights_to_bytes;
use perceptron::matrix::Matrix;
use perceptron::shapes::make_rectangle;

#[test]
fn weight_bytes_center_around_128() {
    let mut cells: Vec<i64> = vec![0; 400];
    cells[0] = -128;
    cells[1] = 127;
    cells[2] = 5;
    cells[3] = -1;
    let w = Matrix::from_cells(cells);
    let bytes = weights_to_bytes(&w);
    assert_eq!(bytes.len(), 400);
    assert_eq!(bytes[0], 0);
    assert_eq!(bytes[1], 255);
    assert_eq!(bytes[2], 133);
    assert_eq!(bytes[3], 127);
    assert_eq!(bytes[4], 128);
}

#[test]
fn weight_bytes_clamp_outside_the_byte_range() {
    let mut cells: Vec<i64> = vec![0; 400];
    cells[0] = -500;
    cells[1] = 500;
    let w = Matrix::from_cells(cells);
    let bytes = weights_to_bytes(&w);
    assert_eq!(bytes[0], 0);
    assert_eq!(bytes[1], 255);
}

#[test]
fn weights_round_trip_exactly_within_range() {
    let mut cells: Vec<i64> = Vec::new();
    for k in 0..400i64 {
        // every value of [-128, 127] appears at least once
        cells.push((k % 256) - 128);
    }
    let w = Matrix::from_cells(cells.clone());
    let bytes = weights_to_bytes(&w);
    let back = weights_from_bytes(&bytes);
    for k in 0..400 {
        assert_eq!(back.at(k), cells[k]);
    }
}

#[test]
fn byte_round_trip_through_a_weight_matrix() {
    let mut bytes: Vec<u8> = Vec::new();
    for k in 0..400 {
        bytes.push((k % 256) as u8);
    }
    let w = weights_from_bytes(&bytes);
    assert_eq!(w.at(0), -128);
    assert_eq!(w.at(255), 127);
    let again = weights_to_bytes(&w);
    assert_eq!(again, bytes);
}

#[test]
fn mask_bytes_are_zero_or_255() {
    let m = make_rectangle(0, 0, 0, 1);
    let bytes = mask_to_bytes(&m);
    assert_eq!(bytes[0], 255);
    assert_eq!(bytes[1], 255);
    for k in 2..400 {
        assert_eq!(bytes[k], 0);
    }
}

#[test]
fn pixels_survive_loading_and_saving() {
    let mut bytes: Vec<u8> = Vec::new();
    for k in 0..400 {
        bytes.push((k % 251) as u8);
    }
    let m = image_from_bytes(&bytes);
    assert_eq!(m.at(0), 0);
    assert_eq!(m.at(399), (399 % 251) as i64);
    assert_eq!(pixels_to_bytes(&m), bytes);
}

#[test]
fn weights_survive_a_png_encode_and_decode() {
    let mut cells: Vec<i64> = Vec::new();
    for k in 0..400i64 {
        cells.push((k % 256) - 128);
    }
    let w = Matrix::from_cells(cells);
    let bytes = weights_to_bytes(&w);

    let mut imgbuf = image::ImageBuffer::new(20, 20);
    for (x, y, pixel) in imgbuf.enumerate_pixels_mut() {
        let v = bytes[(x as usize) * 20 + y as usize];
        *pixel = image::Rgb([v, v, v]);
    }
    let img = image::DynamicImage::ImageRgb8(imgbuf);
    let mut encoded: Vec<u8> = Vec::new();
    img.write_to(
        &mut std::io::Cursor::new(&mut encoded),
        image::ImageOutputFormat::Png,
    )
    .expect("png encoding failed");

    let decoded = image::load_from_memory(&encoded)
        .expect("png decoding failed")
        .into_rgb8();
    assert_eq!((decoded.width(), decoded.height()), (20, 20));
    let mut back = vec![0u8; 400];
    for (x, y, pixel) in decoded.enumerate_pixels() {
        back[(x as usize) * 20 + y as usize] = pixel[0];
    }
    let recovered = weights_from_bytes(&back);
    for k in 0..400 {
        assert_eq!(recovered.at(k), w.at(k));
    }
}

#[test]
fn set_argument_is_returned() {
    let arg = String::from("weights.png");
    assert_eq!(argument_if_set(&arg), Some(String::from("weights.png")));
}

#[test]
fn empty_argument_is_none() {
    let arg = String::new();
    assert_eq!(argument_if_set(&arg), None);
}
