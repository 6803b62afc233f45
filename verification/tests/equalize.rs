use eyetrack::equalize::{equalize_histogram, grayscale, ImageData};

#[test]
fn a_new_image_is_black() {
    let image = ImageData::new(3, 2);
    assert_eq!((image.width, image.height), (3, 2));
    assert_eq!(image.pixels, vec![0; 6]);
    let copy = image.clone();
    assert_eq!((copy.width, copy.height, copy.pixels), (3, 2, vec![0; 6]));
}

#[test]
fn grey_is_the_weighted_brightness() {
    let mut rgb = vec![0u8; 49152];
    rgb[0..3].copy_from_slice(&[255, 0, 0]);
    rgb[3..6].copy_from_slice(&[0, 255, 0]);
    rgb[6..9].copy_from_slice(&[0, 0, 255]);
    rgb[9..12].copy_from_slice(&[255, 255, 255]);
    rgb[12..15].copy_from_slice(&[77, 77, 77]);
    rgb[15..18].copy_from_slice(&[10, 20, 30]);
    let image = grayscale(rgb);
    assert_eq!((image.width, image.height), (128, 128));
    assert_eq!(image.pixels.len(), 16384);
    assert_eq!(image.pixels[..7], [54, 182, 18, 255, 77, 18, 0]);
}

#[test]
fn equalization_uses_the_full_range() {
    let mut data = [0u8; 16384];
    for (i, pixel) in data.iter_mut().enumerate() {
        *pixel = 100 + (i / 128 / 8) as u8;
    }
    let image = equalize_histogram(&data);
    assert_eq!((image.width, image.height), (128, 128));
    assert_eq!(image.pixels.len(), 16384);
    let darkest = *image.pixels.iter().min().unwrap();
    let brightest = *image.pixels.iter().max().unwrap();
    assert!(darkest < 64);
    assert!(brightest >= 254);
}

#[test]
fn equalization_keeps_the_order_of_brightness_in_a_column() {
    let mut data = [0u8; 16384];
    for (i, pixel) in data.iter_mut().enumerate() {
        *pixel = ((i * 37) % 251) as u8;
    }
    let image = equalize_histogram(&data);
    for column in 0..128 {
        for row in 1..128 {
            let (above, below) = ((row - 1) * 128 + column, row * 128 + column);
            if data[above] <= data[below] {
                assert!(image.pixels[above] <= image.pixels[below]);
            } else {
                assert!(image.pixels[above] >= image.pixels[below]);
            }
        }
    }
}

#[test]
fn a_black_image_turns_white() {
    let image = equalize_histogram(&[0u8; 16384]);
    assert!(image.pixels.iter().all(|&pixel| pixel >= 254));
}
