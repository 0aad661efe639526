use argon2::{Params, SegmentView};

#[test]
fn first_segment_starts_at_the_third_block() {
    let params = Params::new(64, 1, 1, None).unwrap();
    let mut seg = SegmentView::new(0, 0, 0, &params);
    assert_eq!(seg.position(), 2);
    assert!(!seg.is_exhausted());
    assert_eq!(seg.prev_index(), 1);
    // One candidate only: the first block.
    assert_eq!(seg.next(0), Some((2, 1, 0)));
    assert_eq!(seg.position(), 3);
    // Two candidates: a low word picks the later one, a high word the earlier.
    let mut early = SegmentView::new(0, 0, 0, &params);
    early.next(0);
    assert_eq!(early.next(0xffff_ffff), Some((3, 2, 0)));
    assert_eq!(seg.next(0), Some((3, 2, 1)));
}

#[test]
fn a_segment_yields_every_block_once() {
    let params = Params::new(64, 2, 1, None).unwrap();
    let mut seg = SegmentView::new(0, 0, 0, &params);
    let mut count = 0;
    while let Some((cur, prev, _)) = seg.next(0x1234_5678_9abc_def0) {
        assert_eq!(cur, 2 + count);
        assert_eq!(prev, cur - 1);
        count += 1;
    }
    assert_eq!(count, 14);
    assert!(seg.is_exhausted());
    assert_eq!(seg.next(0), None);
    assert_eq!(seg.position(), 16);

    let mut seg = SegmentView::new(1, 2, 0, &params);
    let mut count = 0;
    while let Some((cur, prev, _)) = seg.next(7) {
        assert_eq!(cur, 32 + count);
        assert_eq!(prev, cur - 1);
        count += 1;
    }
    assert_eq!(count, 16);
}

#[test]
fn the_smallest_first_segment_is_exhausted_at_once() {
    let params = Params::new(8, 1, 1, None).unwrap();
    let mut seg = SegmentView::new(0, 0, 0, &params);
    assert!(seg.is_exhausted());
    assert_eq!(seg.next(0), None);
    let mut seg = SegmentView::new(0, 1, 0, &params);
    assert_eq!(seg.next(0), Some((2, 1, 0)));
}

#[test]
fn the_first_block_of_a_later_pass_follows_the_last_of_its_lane() {
    let params = Params::new(64, 2, 1, None).unwrap();
    let mut seg = SegmentView::new(1, 0, 0, &params);
    assert_eq!(seg.position(), 0);
    assert_eq!(seg.prev_index(), 63);
    // 47 candidates from position 16 on; a zero word picks the last, 62.
    assert_eq!(seg.next(0), Some((0, 63, 62)));
    assert_eq!(seg.prev_index(), 0);
}

#[test]
fn first_slice_refers_back_within_the_lane() {
    let params = Params::new(256, 1, 4, None).unwrap();
    let lane_length = params.lane_length();
    for lane in 0..4 {
        let mut seg = SegmentView::new(0, 0, lane, &params);
        let mut rand: u64 = 0x0123_4567_89ab_cdef;
        while let Some((cur, prev, reference)) = seg.next(rand) {
            assert!(reference < cur);
            assert!(reference < prev);
            assert!(reference >= lane * lane_length);
            assert_eq!(prev, cur - 1);
            rand = rand
                .wrapping_mul(6364136223846793005)
                .wrapping_add(1442695040888963407);
        }
    }
}

#[test]
fn references_stay_out_of_the_current_slice_of_other_lanes() {
    let params = Params::new(256, 2, 4, None).unwrap();
    let lane_length = params.lane_length();
    let segment_length = params.segment_length();
    let mut rand: u64 = 0xfeed_face_cafe_beef;
    for pass in 0..2 {
        for slice in 0..4 {
            for lane in 0..4 {
                let mut seg = SegmentView::new(pass, slice, lane, &params);
                while let Some((cur, _, reference)) = seg.next(rand) {
                    assert!(reference < params.block_count());
                    assert_ne!(reference, cur);
                    let ref_lane = reference / lane_length;
                    let ref_pos = reference % lane_length;
                    if ref_lane != lane {
                        assert!(ref_pos / segment_length != slice);
                    }
                    if pass == 0 {
                        assert!(ref_pos < slice * segment_length + segment_length);
                    }
                    rand = rand
                        .wrapping_mul(6364136223846793005)
                        .wrapping_add(1442695040888963407);
                }
            }
        }
    }
}

#[test]
fn other_lanes_are_referred_to_by_the_high_half() {
    let params = Params::new(256, 1, 4, None).unwrap();
    // Pass 0, slice 1, lane 0, first block: the high half 3 picks lane 3,
    // where 15 blocks are candidates; a zero low half picks the last, 14.
    let mut seg = SegmentView::new(0, 1, 0, &params);
    assert_eq!(seg.next(3u64 << 32), Some((16, 15, 3 * 64 + 14)));
    // Second block: all 16 blocks of the first slice are candidates.
    assert_eq!(seg.next(6u64 << 32), Some((17, 16, 2 * 64 + 15)));
    // In the lane itself the blocks before the previous one are candidates.
    assert_eq!(seg.next(4u64 << 32), Some((18, 17, 16)));
}
