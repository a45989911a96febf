use sample_bridge::render::{RenderCall, RenderError};

#[test]
fn a_block_with_a_positive_size_can_be_rendered() {
    let call = RenderCall::new(vec![1, 2, 3], 640, 480);
    assert!(call.is_ok());
    let call = match call {
        Ok(call) => call,
        Err(_) => unreachable!(),
    };
    assert_eq!(call.size(), (640, 480));
    assert_eq!(call.last_index(), 2);
    assert_eq!(call.into_block(), vec![1, 2, 3]);
}

#[test]
fn zero_width_is_refused_first() {
    assert!(matches!(RenderCall::new(vec![1], 0, 480), Err(RenderError::ZeroWidth)));
    assert!(matches!(RenderCall::new(vec![], 0, 0), Err(RenderError::ZeroWidth)));
}

#[test]
fn zero_height_is_refused_next() {
    assert!(matches!(RenderCall::new(vec![1], 640, 0), Err(RenderError::ZeroHeight)));
    assert!(matches!(RenderCall::new(vec![], 640, 0), Err(RenderError::ZeroHeight)));
}

#[test]
fn empty_block_is_refused_last() {
    assert!(matches!(RenderCall::new(vec![], 640, 480), Err(RenderError::EmptyBlock)));
}

#[test]
fn a_single_sample_spans_a_single_position() {
    match RenderCall::new(vec![7], 1, 1) {
        Ok(call) => {
            assert_eq!(call.last_index(), 0);
            assert_eq!(call.size(), (1, 1));
        },
        Err(_) => panic!("a one-sample block on a one-pixel plot is drawable"),
    }
}
