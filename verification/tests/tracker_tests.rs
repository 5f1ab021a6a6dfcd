use damage_sync::payload::{BlockTransfer, FlushPayload, PixelWrite};
use damage_sync::rect::Rect;
use damage_sync::sink::{FailingSink, RecordingSink, TransferError};
use damage_sync::target::DrawTarget;
use damage_sync::tracker::{DamageTracker, Strategy, DIRTY_LIST_CAPACITY};

fn block(p: &FlushPayload) -> &BlockTransfer {
    match p {
        FlushPayload::Block(b) => b,
        _ => panic!("expected a block payload"),
    }
}

fn pixels(p: &FlushPayload) -> &Vec<PixelWrite> {
    match p {
        FlushPayload::Pixels(v) => v,
        _ => panic!("expected a pixel payload"),
    }
}

/// Reference diff: every position where the two color lists disagree.
fn reference_diff(before: &[u16], after: &[u16], width: usize) -> Vec<(usize, usize, u16)> {
    let mut out = Vec::new();
    for (i, (&b, &a)) in before.iter().zip(after.iter()).enumerate() {
        if b != a {
            out.push((i % width, i / width, a));
        }
    }
    out
}

#[test]
fn first_flush_sends_whole_surface_as_block() {
    // 4x4 all-black surface: one block, 4x4, 32 bytes, all zero.
    let mut t = DamageTracker::new(4, 4, 0, 0);
    let mut sink = RecordingSink::new();
    t.flush(&mut sink).unwrap();
    assert_eq!(sink.count(), 1);
    let b = block(&sink.records[0]);
    assert_eq!((b.x, b.y, b.width, b.height), (0, 0, 4, 4));
    assert_eq!(b.bytes.len(), 32);
    assert!(b.bytes.iter().all(|&v| v == 0));
}

#[test]
fn scenario_two_writes_emit_minimal_block() {
    // After the all-black first flush, write white at (1,1) and (2,2): the
    // block strategy must emit exactly one 2x2 block covering (1,1)-(2,2),
    // 8 bytes, with two white and two unchanged black pixels.
    let mut t = DamageTracker::new(4, 4, 0, 0);
    let mut sink = RecordingSink::new();
    t.flush(&mut sink).unwrap();
    t.write(1, 1, 0xFFFF);
    t.write(2, 2, 0xFFFF);
    t.flush(&mut sink).unwrap();
    assert_eq!(sink.count(), 2);
    let b = block(&sink.records[1]);
    assert_eq!((b.x, b.y, b.width, b.height), (1, 1, 2, 2));
    assert_eq!(b.bytes, vec![0xFF, 0xFF, 0x00, 0x00, 0x00, 0x00, 0xFF, 0xFF]);
}

#[test]
fn flush_twice_sends_zero_bytes_block_strategy() {
    let mut t = DamageTracker::new(4, 4, 0, 0);
    let mut sink = RecordingSink::new();
    t.flush(&mut sink).unwrap();
    t.write(1, 1, 0xFFFF);
    t.flush(&mut sink).unwrap();
    let before = sink.count();
    t.flush(&mut sink).unwrap();
    // No intervening write: nothing crosses the bus at all.
    assert_eq!(sink.count(), before);
}

#[test]
fn flush_twice_sends_zero_bytes_pixel_list() {
    let mut t = DamageTracker::with_strategy(4, 4, 0, 0, Strategy::PixelList, 100);
    let mut sink = RecordingSink::new();
    t.flush(&mut sink).unwrap();
    t.write(1, 1, 0xFFFF);
    t.flush(&mut sink).unwrap();
    t.flush(&mut sink).unwrap();
    // The second pixel-list flush carries zero pixel writes.
    assert_eq!(pixels(&sink.records[2]).len(), 0);
}

#[test]
fn post_flush_previous_equals_current() {
    let mut t = DamageTracker::new(4, 4, 0, 0);
    assert!(!t.has_previous());
    let mut sink = RecordingSink::new();
    t.write(3, 0, 0x1234);
    t.flush(&mut sink).unwrap();
    assert!(t.has_previous());
    for y in 0..4 {
        for x in 0..4 {
            assert_eq!(t.previous_pixel(x, y), Some(t.get_pixel(x, y)));
        }
    }
}

#[test]
fn matching_write_is_not_damage_block_strategy() {
    // Writing the color a pixel already shows must contribute zero bytes.
    let mut t = DamageTracker::new(4, 4, 0, 0);
    let mut sink = RecordingSink::new();
    t.flush(&mut sink).unwrap();
    t.write(2, 2, 0);
    assert_eq!(t.bounding_box(), None);
    let before = sink.count();
    t.flush(&mut sink).unwrap();
    assert_eq!(sink.count(), before);
}

#[test]
fn matching_write_is_not_damage_pixel_list() {
    let mut t = DamageTracker::with_strategy(4, 4, 0, 0, Strategy::PixelList, 100);
    let mut sink = RecordingSink::new();
    t.flush(&mut sink).unwrap();
    t.write(2, 2, 0);
    assert_eq!(t.dirty_len(), 0);
    t.flush(&mut sink).unwrap();
    assert_eq!(pixels(&sink.records[1]).len(), 0);
}

#[test]
fn reverted_write_is_dropped_on_reverify() {
    // A pixel written twice, ending unchanged, is recorded but re-verified
    // away on flush: only genuine mismatches are emitted.
    let mut t = DamageTracker::with_strategy(4, 4, 0, 0, Strategy::PixelList, 100);
    let mut sink = RecordingSink::new();
    t.flush(&mut sink).unwrap();
    t.write(0, 0, 0xFFFF);
    t.write(3, 2, 0xFFFF);
    t.write(1, 1, 0xFFFF);
    t.write(1, 1, 0); // back to what the panel shows
    assert_eq!(t.dirty_len(), 3);
    t.flush(&mut sink).unwrap();
    let v = pixels(&sink.records[1]);
    let mut got: Vec<(usize, usize, u16)> = v.iter().map(|p| (p.x, p.y, p.color)).collect();
    got.sort();
    assert_eq!(got, vec![(0, 0, 0xFFFF), (3, 2, 0xFFFF)]);
}

#[test]
fn overflow_falls_back_to_full_scan() {
    // More distinct damaged positions than the capacity: the dirty list
    // stops growing, the overflow flag downgrades the flush to a full
    // scan, and still every actually-changed position is reported.
    let mut t = DamageTracker::with_strategy(8, 8, 0, 0, Strategy::PixelList, 3);
    let mut sink = RecordingSink::new();
    t.flush(&mut sink).unwrap();
    let before: Vec<u16> = vec![0; 64];
    let mut after = before.clone();
    for &(x, y) in &[(0usize, 0usize), (7, 0), (3, 3), (0, 7), (7, 7)] {
        t.write(x, y, 0xABCD);
        after[y * 8 + x] = 0xABCD;
    }
    assert_eq!(t.dirty_len(), 3);
    assert!(t.is_overflowed());
    t.flush(&mut sink).unwrap();
    let v = pixels(&sink.records[1]);
    let mut got: Vec<(usize, usize, u16)> = v.iter().map(|p| (p.x, p.y, p.color)).collect();
    got.sort();
    let mut want = reference_diff(&before, &after, 8);
    want.sort();
    assert_eq!(got, want);
    assert!(!t.is_overflowed());
}

#[test]
fn full_scan_strategy_reports_exact_mismatches() {
    let mut t = DamageTracker::with_strategy(4, 4, 0, 0, Strategy::FullScan, 0);
    let mut sink = RecordingSink::new();
    t.flush(&mut sink).unwrap();
    t.write(2, 0, 5);
    t.write(1, 3, 6);
    t.flush(&mut sink).unwrap();
    let v = pixels(&sink.records[1]);
    let mut got: Vec<(usize, usize, u16)> = v.iter().map(|p| (p.x, p.y, p.color)).collect();
    got.sort();
    assert_eq!(got, vec![(1, 3, 6), (2, 0, 5)]);
}

#[test]
fn bounding_box_is_smallest_enclosing_rect() {
    // Synthetic set of changed coordinates: the rectangle must be exactly
    // the min/max hull of the damaged points.
    let mut t = DamageTracker::new(8, 8, 0, 0);
    let mut sink = RecordingSink::new();
    t.flush(&mut sink).unwrap();
    t.write(2, 1, 1);
    assert_eq!(t.bounding_box(), Some(Rect { left: 2, top: 1, right: 2, bottom: 1 }));
    t.write(0, 3, 2);
    t.write(5, 2, 3);
    let r = t.bounding_box().unwrap();
    assert_eq!(r, Rect { left: 0, top: 1, right: 5, bottom: 3 });
    t.flush(&mut sink).unwrap();
    let b = block(&sink.records[1]);
    assert_eq!((b.x, b.y, b.width, b.height), (0, 1, 6, 3));
    assert_eq!(b.bytes.len(), 6 * 3 * 2);
    assert_eq!(t.bounding_box(), None);
}

#[test]
fn anchor_offsets_device_coordinates() {
    let mut t = DamageTracker::new(4, 4, 10, 20);
    let mut sink = RecordingSink::new();
    t.flush(&mut sink).unwrap();
    let b = block(&sink.records[0]);
    assert_eq!((b.x, b.y), (10, 20));
    t.write(1, 2, 9);
    t.flush(&mut sink).unwrap();
    let b = block(&sink.records[1]);
    assert_eq!((b.x, b.y, b.width, b.height), (11, 22, 1, 1));

    let mut t = DamageTracker::with_strategy(4, 4, 10, 20, Strategy::PixelList, 100);
    t.flush(&mut sink).unwrap();
    t.write(1, 2, 9);
    t.flush(&mut sink).unwrap();
    let v = pixels(&sink.records[3]);
    assert_eq!(v.len(), 1);
    assert_eq!((v[0].x, v[0].y, v[0].color), (11, 22, 9));
}

#[test]
fn transfer_error_propagates_unmodified_and_keeps_state() {
    let mut t = DamageTracker::new(4, 4, 0, 0);
    t.write(1, 1, 7);
    let mut bad = FailingSink::new(42);
    let r = t.flush(&mut bad);
    assert_eq!(r, Err(TransferError { code: 42 }));
    // Exactly one attempt was made and refused: no retry, nothing swallowed.
    assert_eq!(bad.refused, vec![TransferError { code: 42 }]);
    // The tracker did not reconcile: the next flush still sends everything.
    assert!(!t.has_previous());
    assert_eq!(t.get_pixel(1, 1), 7);
    let mut sink = RecordingSink::new();
    t.flush(&mut sink).unwrap();
    let b = block(&sink.records[0]);
    assert_eq!((b.width, b.height), (4, 4));
}

#[test]
fn transfer_error_keeps_dirty_list() {
    let mut t = DamageTracker::with_strategy(4, 4, 0, 0, Strategy::PixelList, 100);
    let mut sink = RecordingSink::new();
    t.flush(&mut sink).unwrap();
    t.write(1, 1, 5);
    let mut bad = FailingSink::new(9);
    assert_eq!(t.flush(&mut bad), Err(TransferError { code: 9 }));
    // The damage is still recorded and goes out on the next attempt.
    assert_eq!(t.dirty_len(), 1);
    t.flush(&mut sink).unwrap();
    let v = pixels(&sink.records[1]);
    assert_eq!(v.len(), 1);
    assert_eq!((v[0].x, v[0].y, v[0].color), (1, 1, 5));
}

#[test]
fn clear_tracks_damage_like_writes() {
    let mut t = DamageTracker::new(3, 3, 0, 0);
    let mut sink = RecordingSink::new();
    t.flush(&mut sink).unwrap();
    t.clear(0x00AA);
    for y in 0..3 {
        for x in 0..3 {
            assert_eq!(t.get_pixel(x, y), 0x00AA);
        }
    }
    assert_eq!(
        t.bounding_box(),
        Some(Rect { left: 0, top: 0, right: 2, bottom: 2 })
    );
    t.flush(&mut sink).unwrap();
    let b = block(&sink.records[1]);
    assert_eq!((b.x, b.y, b.width, b.height), (0, 0, 3, 3));
}

#[test]
fn matching_clear_records_no_damage() {
    // Filling with the color the panel already shows everywhere must lead
    // to a zero-byte flush, exactly like a single matching write.
    let mut t = DamageTracker::new(3, 3, 0, 0);
    let mut sink = RecordingSink::new();
    t.flush(&mut sink).unwrap();
    t.clear(0);
    assert_eq!(t.bounding_box(), None);
    let before = sink.count();
    t.flush(&mut sink).unwrap();
    assert_eq!(sink.count(), before);

    let mut t = DamageTracker::with_strategy(3, 3, 0, 0, Strategy::PixelList, 100);
    t.flush(&mut sink).unwrap();
    t.clear(0);
    assert_eq!(t.dirty_len(), 0);
    assert!(!t.is_overflowed());
}

#[test]
fn empty_surface_first_flush_sends_nothing() {
    let mut t = DamageTracker::new(0, 0, 0, 0);
    let mut sink = RecordingSink::new();
    t.flush(&mut sink).unwrap();
    assert_eq!(sink.count(), 0);
    assert!(t.has_previous());
}

#[test]
fn tracker_as_draw_target() {
    fn paint<T: DrawTarget>(t: &mut T) {
        let (w, _) = t.size();
        t.draw_pixel(w - 1, 0, 3);
    }
    let mut t = DamageTracker::new(4, 4, 0, 0);
    let mut sink = RecordingSink::new();
    t.flush(&mut sink).unwrap();
    paint(&mut t);
    assert_eq!(t.get_pixel(3, 0), 3);
    assert_eq!(t.bounding_box(), Some(Rect { left: 3, top: 0, right: 3, bottom: 0 }));
}

#[test]
fn default_configuration() {
    let t = DamageTracker::new(4, 4, 0, 0);
    assert_eq!(t.strategy(), Strategy::BoundingBox);
    assert_eq!(t.capacity(), DIRTY_LIST_CAPACITY);
    let t = DamageTracker::with_strategy(4, 4, 0, 0, Strategy::PixelList, 7);
    assert_eq!(t.strategy(), Strategy::PixelList);
    assert_eq!(t.capacity(), 7);
}

#[test]
fn compute_payload_previews_without_sending() {
    let mut t = DamageTracker::new(4, 4, 0, 0);
    let mut sink = RecordingSink::new();
    t.flush(&mut sink).unwrap();
    t.write(2, 2, 1);
    let p = t.compute_payload();
    let b = block(&p);
    assert_eq!((b.x, b.y, b.width, b.height), (2, 2, 1, 1));
    // Nothing was sent and nothing was reconciled.
    assert_eq!(sink.count(), 1);
    assert_eq!(t.bounding_box(), Some(Rect { left: 2, top: 2, right: 2, bottom: 2 }));
}
