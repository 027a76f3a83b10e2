use mandelbrot::colour::{Rgb, Sample};
use mandelbrot::pixel::average_samples;
use mandelbrot::row::render_row;

fn rgb(r: u8, g: u8, b: u8) -> Rgb {
    Rgb { r, g, b }
}

#[test]
fn inside_sample_is_white() {
    assert_eq!(Sample::Inside.colour(), rgb(255, 255, 255));
    assert_eq!(Rgb::white(), rgb(255, 255, 255));
}

#[test]
fn escaped_sample_keeps_its_hue_colour() {
    assert_eq!(Sample::Escaped(rgb(1, 2, 3)).colour(), rgb(1, 2, 3));
    assert_eq!(Sample::Escaped(rgb(0, 0, 0)).colour(), rgb(0, 0, 0));
    assert_eq!(Sample::Escaped(rgb(255, 255, 255)).colour(), rgb(255, 255, 255));
}

#[test]
fn single_sample_is_the_pixel() {
    assert_eq!(average_samples(&[Sample::Escaped(rgb(12, 200, 77))]), rgb(12, 200, 77));
    assert_eq!(average_samples(&[Sample::Inside]), rgb(255, 255, 255));
}

#[test]
fn mean_is_truncated_per_channel() {
    let samples = [Sample::Escaped(rgb(10, 20, 30)), Sample::Escaped(rgb(11, 21, 32))];
    assert_eq!(average_samples(&samples), rgb(10, 20, 31));
    let three =
        [Sample::Escaped(rgb(1, 0, 255)), Sample::Escaped(rgb(1, 0, 255)), Sample::Escaped(rgb(0, 1, 254))];
    assert_eq!(average_samples(&three), rgb(0, 0, 254));
}

#[test]
fn inside_and_escaped_samples_mix() {
    let samples = [Sample::Inside, Sample::Escaped(rgb(0, 100, 255))];
    assert_eq!(average_samples(&samples), rgb(127, 177, 255));
}

#[test]
fn many_white_samples_stay_white() {
    let samples = vec![Sample::Inside; 100_000];
    assert_eq!(average_samples(&samples), rgb(255, 255, 255));
}

#[test]
fn uniform_samples_keep_their_colour() {
    let samples = vec![Sample::Escaped(rgb(3, 254, 128)); 50];
    assert_eq!(average_samples(&samples), rgb(3, 254, 128));
}

#[test]
fn row_has_three_bytes_per_pixel_left_to_right() {
    let samples = [
        Sample::Escaped(rgb(10, 20, 30)),
        Sample::Escaped(rgb(20, 40, 61)),
        Sample::Inside,
        Sample::Escaped(rgb(0, 0, 0)),
        Sample::Escaped(rgb(9, 8, 7)),
        Sample::Escaped(rgb(9, 8, 7)),
    ];
    assert_eq!(render_row(3, 2, &samples), vec![15, 30, 45, 127, 127, 127, 9, 8, 7]);
}

#[test]
fn row_with_one_sample_per_pixel_copies_the_colours() {
    let samples = [Sample::Escaped(rgb(1, 2, 3)), Sample::Inside, Sample::Escaped(rgb(4, 5, 6))];
    assert_eq!(render_row(3, 1, &samples), vec![1, 2, 3, 255, 255, 255, 4, 5, 6]);
}

#[test]
fn row_of_no_pixels_is_empty() {
    assert_eq!(render_row(0, 5, &[]), Vec::<u8>::new());
}

#[test]
fn row_inside_the_set_is_white() {
    let samples = vec![Sample::Inside; 4 * 50];
    assert_eq!(render_row(4, 50, &samples), vec![255u8; 12]);
}
