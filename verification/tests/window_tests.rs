use instrument_to_midi::window::SampleWindowBuffer;

#[test]
fn test_take_window_needs_enough_samples() {
    let mut buffer = SampleWindowBuffer::new();
    buffer.push_chunk(&[1, 2, 3]);
    assert_eq!(buffer.len(), 3);
    assert!(buffer.take_window(4).is_none());
    assert_eq!(buffer.len(), 3);
}

#[test]
fn test_take_window_drains_exactly_one_window() {
    let mut buffer = SampleWindowBuffer::new();
    buffer.push_chunk(&[1, 2, 3, 4, 5]);
    let window = buffer.take_window(2).unwrap();
    assert_eq!(window, vec![1, 2]);
    assert_eq!(buffer.len(), 3);
    let window = buffer.take_window(2).unwrap();
    assert_eq!(window, vec![3, 4]);
    assert!(buffer.take_window(2).is_none());
    assert_eq!(buffer.len(), 1);
}

#[test]
fn test_windows_cross_chunk_boundaries() {
    let mut buffer = SampleWindowBuffer::new();
    buffer.push_chunk(&[10, 20]);
    buffer.push_chunk(&[30, 40, 50]);
    let window = buffer.take_window(4).unwrap();
    assert_eq!(window, vec![10, 20, 30, 40]);
}
