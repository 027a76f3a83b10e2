use mandelbrot::config::{ConfigError, RenderConfig};

fn config(width: u32, height: u32, samples_per_pixel: u32, threads: u32) -> RenderConfig {
    RenderConfig { width, height, samples_per_pixel, threads }
}

#[test]
fn usual_configuration_is_valid() {
    let c = config(1024, 1024, 50, 4);
    assert_eq!(c.validate(), Ok(()));
    assert_eq!(c.row_length(), 3072);
    assert_eq!(c.frame_length(), 3_145_728);
    assert_eq!(c.worker_limit(), 3);
    assert_eq!(c.shorter_side(), 1024);
}

#[test]
fn smallest_configuration_is_valid() {
    let c = config(1, 1, 1, 2);
    assert_eq!(c.validate(), Ok(()));
    assert_eq!(c.row_length(), 3);
    assert_eq!(c.frame_length(), 3);
    assert_eq!(c.worker_limit(), 1);
}

#[test]
fn zero_width_is_rejected() {
    assert_eq!(config(0, 10, 1, 4).validate(), Err(ConfigError::ZeroWidth));
}

#[test]
fn zero_height_is_rejected() {
    assert_eq!(config(10, 0, 1, 4).validate(), Err(ConfigError::ZeroHeight));
}

#[test]
fn zero_samples_are_rejected() {
    assert_eq!(config(10, 10, 0, 4).validate(), Err(ConfigError::ZeroSamples));
}

#[test]
fn fewer_than_two_threads_are_rejected() {
    assert_eq!(config(10, 10, 1, 0).validate(), Err(ConfigError::TooFewThreads));
    assert_eq!(config(10, 10, 1, 1).validate(), Err(ConfigError::TooFewThreads));
    assert_eq!(config(10, 10, 1, 2).validate(), Ok(()));
}

#[test]
fn frame_beyond_memory_is_rejected() {
    assert_eq!(config(u32::MAX, u32::MAX, 1, 4).validate(), Err(ConfigError::FrameTooLarge));
}

#[test]
fn faults_are_named_in_a_fixed_order() {
    assert_eq!(config(0, 0, 0, 0).validate(), Err(ConfigError::ZeroWidth));
    assert_eq!(config(1, 0, 0, 0).validate(), Err(ConfigError::ZeroHeight));
    assert_eq!(config(1, 1, 0, 0).validate(), Err(ConfigError::ZeroSamples));
    assert_eq!(config(1, 1, 1, 0).validate(), Err(ConfigError::TooFewThreads));
    assert_eq!(config(u32::MAX, u32::MAX, 1, 1).validate(), Err(ConfigError::TooFewThreads));
}

#[test]
fn workers_never_outnumber_rows() {
    assert_eq!(config(10, 4, 1, 16).worker_limit(), 4);
    assert_eq!(config(10, 4, 1, 5).worker_limit(), 4);
    assert_eq!(config(10, 4, 1, 4).worker_limit(), 3);
    assert_eq!(config(10, 1000, 1, u32::MAX).worker_limit(), 1000);
}

#[test]
fn shorter_side_is_the_smaller_dimension() {
    assert_eq!(config(640, 480, 1, 4).shorter_side(), 480);
    assert_eq!(config(480, 640, 1, 4).shorter_side(), 480);
}

#[test]
fn non_square_frame_length() {
    let c = config(7, 5, 3, 2);
    assert_eq!(c.row_length(), 21);
    assert_eq!(c.frame_length(), 105);
}
