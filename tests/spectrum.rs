use audio_matcher::engine::EngineError;
use audio_matcher::spectrum::{positive_half, transform_points, SpectrumWindow};

#[test]
fn spectrum_length_is_half_the_window() {
    let bins = vec![0.0f32; 44000];
    assert_eq!(positive_half(bins).len(), 22000);
    assert_eq!(positive_half(vec![1u8, 2, 3, 4, 5]), vec![1u8, 2]);
    assert_eq!(positive_half(vec![7u8]), Vec::<u8>::new());
}

#[test]
fn window_of_44000_fills_and_restarts() {
    let mut w = SpectrumWindow::<f32>::new(44000).unwrap();
    for _ in 0..43 {
        assert!(w.feed(vec![0.0; 1000]).is_none());
    }
    assert_eq!(w.buffered(), 43000);
    let window = w.feed(vec![0.0; 1500]).unwrap();
    assert_eq!(window.len(), 44000);
    assert_eq!(positive_half(window).len(), 22000);
    // The samples beyond the window are dropped with it.
    assert_eq!(w.buffered(), 0);
    assert_eq!(w.window(), 44000);
}

#[test]
fn window_takes_the_first_samples() {
    let mut w = SpectrumWindow::<u32>::new(3).unwrap();
    assert!(w.feed(vec![1, 2]).is_none());
    assert_eq!(w.feed(vec![3, 4, 5]), Some(vec![1, 2, 3]));
    assert_eq!(w.buffered(), 0);
    assert_eq!(w.feed(vec![6, 7, 8]), Some(vec![6, 7, 8]));
}

#[test]
fn zero_window_is_refused() {
    assert!(matches!(
        SpectrumWindow::<f32>::new(0),
        Err(EngineError::InvalidConfig)
    ));
}

#[test]
fn transform_of_nothing_is_invalid_input() {
    assert_eq!(transform_points::<f32>(&vec![]), Err(EngineError::InvalidInput));
    assert_eq!(transform_points(&vec![0.0f32; 5]), Ok(5));
}
