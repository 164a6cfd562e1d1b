use greg::ring_buffer::RingBuffer;

#[test]
fn write_and_read_back() {
    let mut rb: RingBuffer<f32> = RingBuffer::new(1024);
    let samples: Vec<f32> = (0..100).map(|i| i as f32).collect();
    rb.write(&samples);

    assert_eq!(rb.write_position(), 100);

    let read = rb.read_latest(100);
    assert_eq!(read, samples);
}

#[test]
fn read_latest_fewer_than_written() {
    let mut rb: RingBuffer<f32> = RingBuffer::new(1024);
    let samples: Vec<f32> = (0..100).map(|i| i as f32).collect();
    rb.write(&samples);

    let read = rb.read_latest(10);
    let expected: Vec<f32> = (90..100).map(|i| i as f32).collect();
    assert_eq!(read, expected);
}

#[test]
fn read_more_than_written_returns_available() {
    let mut rb: RingBuffer<f32> = RingBuffer::new(1024);
    let samples: Vec<f32> = (0..50).map(|i| i as f32).collect();
    rb.write(&samples);

    let read = rb.read_latest(200);
    assert_eq!(read, samples);
}

#[test]
fn wraparound() {
    let mut rb: RingBuffer<f32> = RingBuffer::new(64);

    // Write more than capacity to trigger wrap
    let first: Vec<f32> = (0..60).map(|i| i as f32).collect();
    rb.write(&first);

    let second: Vec<f32> = (60..80).map(|i| i as f32).collect();
    rb.write(&second);

    assert_eq!(rb.write_position(), 80);

    // Read last 64 samples (full capacity)
    let read = rb.read_latest(64);
    let expected: Vec<f32> = (16..80).map(|i| i as f32).collect();
    assert_eq!(read, expected);
}

#[test]
fn empty_read() {
    let rb: RingBuffer<f32> = RingBuffer::new(1024);
    let read = rb.read_latest(100);
    assert!(read.is_empty());
}

#[test]
fn read_after_write_returns_written_samples() {
    let mut rb: RingBuffer<f32> = RingBuffer::new(8);
    for round in 0..10 {
        let chunk: Vec<f32> = (0..5).map(|i| (round * 10 + i) as f32).collect();
        rb.write(&chunk);
        assert_eq!(rb.read_latest(5), chunk);
    }
    assert_eq!(rb.write_position(), 50);
    assert_eq!(rb.capacity(), 8);
    // Only the last 8 samples are kept.
    let expected: Vec<f32> = vec![83.0, 84.0, 90.0, 91.0, 92.0, 93.0, 94.0];
    assert_eq!(rb.read_latest(7), expected);
    assert_eq!(rb.read_latest(100).len(), 8);
}

#[test]
fn zero_capacity_reads_nothing() {
    let mut rb: RingBuffer<f32> = RingBuffer::new(0);
    rb.write(&[]);
    assert!(rb.read_latest(10).is_empty());
    assert_eq!(rb.write_position(), 0);
}
