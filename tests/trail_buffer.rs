use newton_gravity::recorder::{TrailBuffer, TRAIL_RECORD_INTERVAL};
use newton_gravity::trail::{Trail, MAX_TRAIL_LENGTH};

#[test]
fn trail_starts_empty() {
    let t: Trail<u32> = Trail::new();
    assert!(t.is_empty());
    assert_eq!(t.len(), 0);
}

#[test]
fn trail_keeps_order_below_capacity() {
    let mut t: Trail<u32> = Trail::new();
    t.push(1);
    t.push(2);
    t.push(3);
    assert_eq!(t.samples(), &[1, 2, 3]);
}

#[test]
fn trail_capacity_keeps_most_recent() {
    let mut t: Trail<usize> = Trail::new();
    let total = MAX_TRAIL_LENGTH + 37;
    for k in 0..total {
        t.push(k);
    }
    assert_eq!(t.len(), MAX_TRAIL_LENGTH);
    let expected: Vec<usize> = (total - MAX_TRAIL_LENGTH..total).collect();
    assert_eq!(t.samples(), expected.as_slice());
}

#[test]
fn trail_at_exact_capacity_evicts_nothing() {
    let mut t: Trail<usize> = Trail::new();
    for k in 0..MAX_TRAIL_LENGTH {
        t.push(k);
    }
    assert_eq!(t.len(), MAX_TRAIL_LENGTH);
    assert_eq!(t.samples()[0], 0);
    t.push(MAX_TRAIL_LENGTH);
    assert_eq!(t.len(), MAX_TRAIL_LENGTH);
    assert_eq!(t.samples()[0], 1);
    assert_eq!(t.samples()[MAX_TRAIL_LENGTH - 1], MAX_TRAIL_LENGTH);
}

#[test]
fn buffer_samples_once_per_interval() {
    assert_eq!(TRAIL_RECORD_INTERVAL, 5);
    let mut b: TrailBuffer<(i32, i32)> = TrailBuffer::new(2);
    let mut sampled = 0;
    for frame in 0..50 {
        let f = frame as i32;
        if b.record(&[(f, 0), (0, f)]) {
            sampled += 1;
        }
    }
    assert_eq!(sampled, 10);
    assert_eq!(b.trail(0).len(), 10);
    assert_eq!(b.trail(1).len(), 10);
    assert_eq!(b.trail(0).samples()[0], (0, 0));
    assert_eq!(b.trail(0).samples()[1], (5, 0));
    assert_eq!(b.trail(1).samples()[9], (0, 45));
}

#[test]
fn buffer_first_frame_samples() {
    let mut b: TrailBuffer<u8> = TrailBuffer::new(1);
    assert!(b.is_sampling_frame());
    assert!(b.record(&[7]));
    assert!(!b.is_sampling_frame());
    assert!(!b.record(&[8]));
    assert_eq!(b.trail(0).samples(), &[7]);
}

#[test]
fn buffer_skipped_frames_keep_phase_and_freeze_trails() {
    let mut b: TrailBuffer<u8> = TrailBuffer::new(1);
    assert!(b.record(&[1]));
    b.skip();
    b.skip();
    b.skip();
    assert_eq!(b.trail(0).samples(), &[1]);
    assert!(!b.record(&[2]));
    assert!(b.record(&[3]));
    assert_eq!(b.trail(0).samples(), &[1, 3]);
}

#[test]
fn buffer_with_no_bodies() {
    let mut b: TrailBuffer<u8> = TrailBuffer::new(0);
    assert_eq!(b.count(), 0);
    assert!(b.record(&[]));
}
