use star_stacker::errors::PipelineError;
use star_stacker::stacking::{stack_image, Frame, StackAccumulator};

fn frame(width: usize, height: usize, pixels: Vec<u32>) -> Frame {
    assert_eq!(pixels.len(), width * height);
    Frame { width, height, pixels }
}

// N uniform frames stack to exactly the uniform value.
#[test]
fn uniform_frames_stack_to_value() {
    let frames = vec![Frame::new(4, 3, 7); 5];
    let stacked = stack_image(&frames).unwrap();
    assert_eq!(stacked.width, 4);
    assert_eq!(stacked.height, 3);
    assert_eq!(stacked.pixels, vec![7u32; 12]);
}

// Two frames stack to the elementwise average.
#[test]
fn pair_stacks_to_elementwise_average() {
    let a = frame(2, 2, vec![0, 10, 100, 255]);
    let b = frame(2, 2, vec![4, 20, 50, 255]);
    let stacked = stack_image(&vec![a, b]).unwrap();
    assert_eq!(stacked.pixels, vec![2, 15, 75, 255]);
}

// The stacked result does not depend on the order of the frames.
#[test]
fn stack_is_order_invariant() {
    let a = frame(1, 3, vec![9, 0, 30]);
    let b = frame(1, 3, vec![3, 60, 31]);
    let c = frame(1, 3, vec![6, 3, 32]);
    let abc = stack_image(&vec![a.clone(), b.clone(), c.clone()]).unwrap();
    let cab = stack_image(&vec![c, a, b]).unwrap();
    assert_eq!(abc, cab);
    assert_eq!(abc.pixels, vec![6, 21, 31]);
}

// A single frame passes through unchanged.
#[test]
fn single_frame_passes_through() {
    let a = frame(2, 1, vec![13, 200]);
    let stacked = stack_image(&vec![a.clone()]).unwrap();
    assert_eq!(stacked, a);
}

#[test]
fn unequal_dimensions_rejected() {
    let a = Frame::new(2, 2, 1);
    let b = Frame::new(2, 3, 1);
    assert_eq!(stack_image(&vec![a, b]).unwrap_err(), PipelineError::DimensionMismatch);
}

#[test]
fn accumulator_streams_the_mean() {
    let mut acc = StackAccumulator::new(2, 1);
    assert!(acc.merge(&frame(2, 1, vec![10, 1])).is_ok());
    assert!(acc.merge(&frame(2, 1, vec![20, 2])).is_ok());
    assert!(acc.merge(&frame(2, 1, vec![31, 3])).is_ok());
    assert_eq!(acc.count, 3);
    let mean = acc.mean_frame();
    assert_eq!(mean.pixels, vec![20, 2]);
}

#[test]
fn accumulator_rejects_wrong_size_and_keeps_state() {
    let mut acc = StackAccumulator::new(2, 1);
    assert!(acc.merge(&frame(2, 1, vec![10, 30])).is_ok());
    assert_eq!(acc.merge(&frame(1, 2, vec![5, 5])).unwrap_err(), PipelineError::DimensionMismatch);
    assert_eq!(acc.count, 1);
    let mean = acc.mean_frame();
    assert_eq!(mean.pixels, vec![10, 30]);
}
