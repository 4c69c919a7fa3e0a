use audio_matcher::engine::{CorrelationEngine, EngineError, Step, Tagged, DEFAULT_SAMPLE_RATE};
use audio_matcher::spectrum::SpectrumWindow;

fn engine(threshold: usize) -> CorrelationEngine<f32> {
    CorrelationEngine::new(DEFAULT_SAMPLE_RATE, threshold).unwrap()
}

#[test]
fn zero_threshold_or_rate_is_refused() {
    assert!(matches!(
        CorrelationEngine::<f32>::new(48000, 0),
        Err(EngineError::InvalidConfig)
    ));
    assert!(matches!(
        CorrelationEngine::<f32>::new(0, 10),
        Err(EngineError::InvalidConfig)
    ));
    assert!(matches!(
        CorrelationEngine::<f32>::with_sample_rate(0),
        Err(EngineError::InvalidConfig)
    ));
}

#[test]
fn default_threshold_is_one_second() {
    let e = CorrelationEngine::<f32>::with_sample_rate(DEFAULT_SAMPLE_RATE).unwrap();
    assert_eq!(e.threshold(), 48000);
    assert_eq!(e.sample_rate(), 48000);
    assert!(!e.is_closed());
    assert_eq!(e.reference_len(), 0);
    assert_eq!(e.captured_len(), 0);
}

#[test]
fn blocks_accumulate_below_threshold() {
    let mut e = engine(10);
    assert!(matches!(e.ingest(Tagged::Captured(vec![0.5; 3])), Step::Buffered));
    assert!(matches!(e.ingest(Tagged::Reference(vec![0.25; 7])), Step::Buffered));
    assert!(matches!(e.ingest(Tagged::Captured(vec![0.5; 6])), Step::Buffered));
    assert_eq!(e.captured_len(), 9);
    assert_eq!(e.reference_len(), 7);
}

#[test]
fn one_correlation_per_threshold_crossing() {
    let mut e = engine(10);
    let mut fired = vec![];
    for i in 0..25 {
        let step = e.ingest(Tagged::Reference(vec![1.0; 3]));
        assert!(matches!(step, Step::Buffered));
        match e.ingest(Tagged::Captured(vec![1.0; 3])) {
            Step::Correlate(batch) => {
                assert_eq!(batch.captured.len(), 12);
                assert_eq!(batch.reference.len(), 12);
                assert_eq!(e.captured_len(), 0);
                assert_eq!(e.reference_len(), 0);
                fired.push(i);
            }
            Step::Buffered => {}
            other => panic!("unexpected step {:?}", other),
        }
    }
    // 3 samples per block: the captured buffer reaches 10 on every fourth block.
    assert_eq!(fired, vec![3, 7, 11, 15, 19, 23]);
}

#[test]
fn large_block_triggers_once() {
    let mut e = engine(4);
    assert!(matches!(e.ingest(Tagged::Reference(vec![1.0; 2])), Step::Buffered));
    match e.ingest(Tagged::Captured(vec![2.0; 9])) {
        Step::Correlate(batch) => {
            assert_eq!(batch.captured, vec![2.0; 9]);
            assert_eq!(batch.reference, vec![1.0; 2]);
        }
        other => panic!("unexpected step {:?}", other),
    }
    assert_eq!(e.captured_len(), 0);
    assert_eq!(e.reference_len(), 0);
}

#[test]
fn trigger_without_reference_reports_empty_buffer() {
    let mut e = engine(4);
    assert!(matches!(
        e.ingest(Tagged::Captured(vec![1.0; 4])),
        Step::Failed(EngineError::EmptyBuffer)
    ));
    assert_eq!(e.captured_len(), 0);
    assert!(!e.is_closed());
    // The engine keeps accumulating after the failed cycle.
    assert!(matches!(e.ingest(Tagged::Reference(vec![1.0; 4])), Step::Buffered));
    assert!(matches!(e.ingest(Tagged::Captured(vec![1.0; 4])), Step::Correlate(_)));
}

#[test]
fn end_before_trigger_yields_nothing() {
    let mut e = engine(4);
    let mut w = SpectrumWindow::<f32>::new(8).unwrap();
    let mut results = 0;
    let mut spectra = 0;
    for block in [vec![1.0, 1.0], vec![1.0]] {
        if matches!(e.ingest(Tagged::Captured(block.clone())), Step::Correlate(_)) {
            results += 1;
        }
        if w.feed(block).is_some() {
            spectra += 1;
        }
    }
    assert!(matches!(e.ingest(Tagged::End), Step::Closed));
    assert_eq!(w.end(), 3);
    assert_eq!(results, 0);
    assert_eq!(spectra, 0);
    assert!(e.is_closed());
    assert_eq!(e.captured_len(), 0);
    // Nothing after End is processed.
    assert!(matches!(e.ingest(Tagged::Captured(vec![1.0; 10])), Step::Ignored));
    assert!(matches!(e.ingest(Tagged::End), Step::Ignored));
    assert_eq!(e.captured_len(), 0);
    assert!(w.feed(vec![1.0; 10]).is_none());
    assert_eq!(w.buffered(), 0);
    // Clean shutdown.
    assert_eq!(e.disconnect(), Ok(()));
}

#[test]
fn disconnect_before_end_is_abrupt() {
    let mut e = engine(4);
    assert!(matches!(e.ingest(Tagged::Reference(vec![1.0; 2])), Step::Buffered));
    assert_eq!(e.disconnect(), Err(EngineError::StreamClosedUnexpectedly));
    assert!(e.is_closed());
    assert_eq!(e.reference_len(), 0);
    assert_eq!(e.disconnect(), Ok(()));
}

#[test]
fn unit_blocks_fire_once_per_threshold() {
    let mut e = engine(7);
    let mut count = 0;
    for i in 0..50 {
        if i % 3 == 0 {
            assert!(matches!(e.ingest(Tagged::Reference(vec![0.5; 2])), Step::Buffered));
        }
        if matches!(e.ingest(Tagged::Captured(vec![1.0])), Step::Correlate(_)) {
            count += 1;
        }
    }
    assert_eq!(count, 50 / 7);
    assert_eq!(e.captured_len(), 50 % 7);
}

#[test]
fn interleavings_give_the_same_batch() {
    let orders: [[usize; 4]; 3] = [[0, 1, 2, 3], [2, 0, 3, 1], [2, 3, 0, 1]];
    let mut batches = vec![];
    for order in orders {
        let blocks = [
            Tagged::Reference(vec![1.0, 2.0]),
            Tagged::Reference(vec![3.0]),
            Tagged::Captured(vec![4.0]),
            Tagged::Captured(vec![5.0, 6.0]),
        ];
        let mut slots: Vec<Option<Tagged<f32>>> = blocks.into_iter().map(Some).collect();
        let mut e = engine(4);
        for i in order {
            assert!(matches!(e.ingest(slots[i].take().unwrap()), Step::Buffered));
        }
        match e.ingest(Tagged::Captured(vec![7.0])) {
            Step::Correlate(b) => batches.push((b.reference, b.captured)),
            other => panic!("unexpected step {:?}", other),
        }
    }
    for b in &batches {
        assert_eq!(b.0, vec![1.0, 2.0, 3.0]);
        assert_eq!(b.1, vec![4.0, 5.0, 6.0, 7.0]);
    }
}
