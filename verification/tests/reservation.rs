use divamodarchive::regroup::{plan_claim, plan_regroup, plan_release, regroup_reservations, reservations_for, IdRun, StampedSpan};
use divamodarchive::models::User;
use divamodarchive::reservation::{
    alignment, check_length_and_alignment, check_request_allowed, claim_request_allowed, classify_conflicts,
    distinct_count, find_request_allowed, free_range_start, next_multiple_of, reservable_range_start,
    reservation_allowance, reserve_range_verdict, sorted_distinct, ContentConflict, ReservationSpan, ReservationType,
    ReserveRangeArgs, ReserveRangeResult, ReservedRange,
};

fn user(id: i64) -> User {
    User {
        id,
        name: format!("user{id}"),
        avatar: String::from("a.png"),
        display_name: None,
        public_likes: false,
        show_explicit: false,
        theme: 0,
    }
}

#[test]
fn reservation_type_numbers() {
    assert_eq!(ReservationType::from(0), ReservationType::Song);
    assert_eq!(ReservationType::from(1), ReservationType::Module);
    assert_eq!(ReservationType::from(2), ReservationType::CstmItem);
    assert_eq!(ReservationType::from(7), ReservationType::Song);
    assert_eq!(ReservationType::from(-1), ReservationType::Song);
    for t in [ReservationType::Song, ReservationType::Module, ReservationType::CstmItem] {
        assert_eq!(ReservationType::from(t.as_i32()), t);
    }
}

#[test]
fn alignment_follows_powers_of_ten() {
    assert_eq!(alignment(0), 1);
    assert_eq!(alignment(1), 1);
    assert_eq!(alignment(9), 1);
    assert_eq!(alignment(10), 10);
    assert_eq!(alignment(99), 10);
    assert_eq!(alignment(100), 100);
    assert_eq!(alignment(345), 100);
    assert_eq!(alignment(4_000_000_000), 1_000_000_000);
    assert_eq!(alignment(u32::MAX), 1_000_000_000);
}

#[test]
fn next_multiple_rounds_up() {
    assert_eq!(next_multiple_of(0, 10), 0);
    assert_eq!(next_multiple_of(1, 10), 10);
    assert_eq!(next_multiple_of(10, 10), 10);
    assert_eq!(next_multiple_of(11, 10), 20);
    assert_eq!(next_multiple_of(7, 1), 7);
}

#[test]
fn too_long_range_reports_allowance() {
    assert_eq!(check_length_and_alignment(100, 40, 30), Some(ReserveRangeResult::InvalidLength(30)));
    assert_eq!(
        reserve_range_verdict(100, 40, 30, 1, &vec![], &vec![]),
        ReserveRangeResult::InvalidLength(30)
    );
}

#[test]
fn misaligned_start_reports_alignment() {
    assert_eq!(check_length_and_alignment(105, 20, 30), Some(ReserveRangeResult::InvalidAlignment(10)));
    assert_eq!(check_length_and_alignment(105, 5, 30), None);
    assert_eq!(check_length_and_alignment(110, 20, 30), None);
}

#[test]
fn empty_range_is_valid() {
    assert_eq!(reserve_range_verdict(100, 10, 30, 1, &vec![], &vec![]), ReserveRangeResult::ValidRange);
}

#[test]
fn own_content_makes_range_partial() {
    let content = vec![
        ContentConflict { id: 101, authored: Some(true) },
        ContentConflict { id: 102, authored: None },
    ];
    assert_eq!(
        reserve_range_verdict(100, 10, 30, 1, &content, &vec![]),
        ReserveRangeResult::PartialValidRange(vec![101])
    );
}

#[test]
fn foreign_content_makes_range_invalid() {
    let content = vec![
        ContentConflict { id: 101, authored: Some(true) },
        ContentConflict { id: 103, authored: Some(false) },
    ];
    assert_eq!(reserve_range_verdict(100, 10, 30, 1, &content, &vec![]), ReserveRangeResult::InvalidRange);
}

#[test]
fn own_reservations_are_clamped_to_window() {
    let rows = vec![ReservedRange { user_id: Some(1), range_start: 95, length: 8 }];
    assert_eq!(
        classify_conflicts(100, 10, 1, &vec![], &rows),
        ReserveRangeResult::PartialValidRange(vec![100, 101, 102])
    );
}

#[test]
fn foreign_reservation_makes_range_invalid() {
    let rows = vec![
        ReservedRange { user_id: Some(1), range_start: 100, length: 2 },
        ReservedRange { user_id: Some(2), range_start: 105, length: 2 },
    ];
    assert_eq!(classify_conflicts(100, 10, 1, &vec![], &rows), ReserveRangeResult::InvalidRange);
    let unknown = vec![ReservedRange { user_id: None, range_start: 105, length: 2 }];
    assert_eq!(classify_conflicts(100, 10, 1, &vec![], &unknown), ReserveRangeResult::InvalidRange);
}

#[test]
fn fully_held_range_is_invalid() {
    let rows = vec![ReservedRange { user_id: Some(1), range_start: 100, length: 5 }];
    assert_eq!(classify_conflicts(100, 5, 1, &vec![], &rows), ReserveRangeResult::InvalidRange);
}

#[test]
fn distinct_count_ignores_repeats() {
    assert_eq!(distinct_count(&vec![]), 0);
    assert_eq!(distinct_count(&vec![3, 1, 3, 2, 1]), 3);
}

#[test]
fn allowance_grows_with_half_the_published_content() {
    // 30 songs published, nothing reserved: 30 + 15 rounded up to 20.
    let owned: Vec<i32> = (1000..1030).collect();
    assert_eq!(reservation_allowance(&owned, &vec![]), 50);
    // Nothing published: the base allowance.
    assert_eq!(reservation_allowance(&vec![], &vec![]), 30);
    // One item published: half rounds up to 10.
    assert_eq!(reservation_allowance(&vec![5], &vec![]), 40);
}

#[test]
fn allowance_counts_reserved_ids_not_yet_filled() {
    let owned = vec![100, 101];
    let rows = vec![
        ReservationSpan { range_start: 100, length: 5 },
        ReservationSpan { range_start: 200, length: 0 },
    ];
    // 30 + 10 - 3 (ids 102, 103, 104).
    assert_eq!(reservation_allowance(&owned, &rows), 37);
}

#[test]
fn sorted_distinct_orders_ids() {
    assert_eq!(sorted_distinct(&vec![5, 1, 5, 3, 1]), vec![1, 3, 5]);
    assert_eq!(sorted_distinct(&vec![]), Vec::<u32>::new());
    assert_eq!(sorted_distinct(&vec![u32::MAX, 0, 7]), vec![0, 7, u32::MAX]);
}

#[test]
fn free_start_finds_first_aligned_gap() {
    // Used: 1..=3 and 20; a run of 5 aligned to 1 fits right after 3.
    assert_eq!(free_range_start(&vec![20, 1, 2, 3], 5), 4);
    // A run of 10 must start on a multiple of 10 and end before 20: 4 rounds up to 10, 10 + 10 = 20 fits.
    assert_eq!(free_range_start(&vec![1, 2, 3, 20], 10), 10);
    // A run of 11 does not fit there, so it goes after the last used id.
    assert_eq!(free_range_start(&vec![1, 2, 3, 20], 11), 30);
    // Nothing used.
    assert_eq!(free_range_start(&vec![], 12), 0);
}

#[test]
fn offered_range_respects_allowance_and_reservations() {
    assert_eq!(reservable_range_start(5, 10, &vec![], &vec![]), -1);
    let content = vec![1, 2];
    let rows = vec![ReservationSpan { range_start: 3, length: 7 }];
    // Used ids 1..=9; the next aligned start for 10 ids is 10.
    assert_eq!(reservable_range_start(30, 10, &content, &rows), 10);
}

#[test]
fn regroup_merges_consecutive_ids_and_keeps_latest_time() {
    let rows = vec![
        StampedSpan { range_start: 10, length: 3, time: 5 },
        StampedSpan { range_start: 13, length: 2, time: 9 },
        StampedSpan { range_start: 20, length: 1, time: 1 },
    ];
    let runs = regroup_reservations(&rows, &vec![]);
    assert_eq!(
        runs,
        vec![
            IdRun { range_start: 10, length: 5, time: 9 },
            IdRun { range_start: 20, length: 1, time: 1 },
        ]
    );
}

#[test]
fn regroup_leaves_out_published_ids() {
    let rows = vec![StampedSpan { range_start: 10, length: 6, time: 4 }];
    let runs = plan_regroup(&rows, &vec![12, 13]);
    assert_eq!(
        runs,
        vec![
            IdRun { range_start: 10, length: 2, time: 4 },
            IdRun { range_start: 14, length: 2, time: 4 },
        ]
    );
}

#[test]
fn overlapping_rows_take_the_later_time() {
    let rows = vec![
        StampedSpan { range_start: 1, length: 2, time: 8 },
        StampedSpan { range_start: 1, length: 1, time: 3 },
    ];
    // id 1 takes time 3 from the later row, id 2 keeps 8; the run is dated 8.
    assert_eq!(regroup_reservations(&rows, &vec![]), vec![IdRun { range_start: 1, length: 2, time: 8 }]);
}

#[test]
fn regrouping_twice_changes_nothing() {
    let rows = vec![
        StampedSpan { range_start: 1, length: 4, time: 2 },
        StampedSpan { range_start: 7, length: 2, time: 6 },
        StampedSpan { range_start: 5, length: 1, time: 1 },
    ];
    let once = regroup_reservations(&rows, &vec![3]);
    let again: Vec<StampedSpan> = once
        .iter()
        .map(|r| StampedSpan { range_start: r.range_start, length: r.length, time: r.time })
        .collect();
    assert_eq!(regroup_reservations(&again, &vec![]), once);
}

#[test]
fn release_keeps_ids_outside_window() {
    let rows = vec![StampedSpan { range_start: 100, length: 10, time: 7 }];
    assert_eq!(
        plan_release(103, 2, &rows),
        Some(vec![
            IdRun { range_start: 100, length: 3, time: 7 },
            IdRun { range_start: 105, length: 5, time: 7 },
        ])
    );
    assert_eq!(plan_release(0, 2, &rows), None);
    assert_eq!(plan_release(103, 0, &rows), None);
    // Asking to release more ids than are held there does nothing.
    assert_eq!(plan_release(100, 11, &rows), None);
}

#[test]
fn claim_skips_held_ids() {
    assert_eq!(
        plan_claim(100, 5, &vec![101, 102], 42),
        vec![
            IdRun { range_start: 100, length: 1, time: 42 },
            IdRun { range_start: 103, length: 2, time: 42 },
        ]
    );
}

#[test]
fn reservations_carry_user_and_kind() {
    let runs = vec![IdRun { range_start: 3, length: 2, time: 11 }];
    let u = user(9);
    let r = reservations_for(&runs, &u, ReservationType::Module);
    assert_eq!(r.len(), 1);
    assert_eq!(r[0].user, u);
    assert_eq!(r[0].reservation_type, ReservationType::Module);
    assert_eq!((r[0].range_start, r[0].length, r[0].time), (3, 2, 11));
}

#[test]
fn request_guards() {
    let song = ReserveRangeArgs { reservation_type: ReservationType::Song, start: 100, length: 10 };
    let module = ReserveRangeArgs { reservation_type: ReservationType::Module, start: 100, length: 10 };
    let no_start = ReserveRangeArgs { reservation_type: ReservationType::Song, start: 0, length: 10 };
    let empty = ReserveRangeArgs { reservation_type: ReservationType::Song, start: 100, length: 0 };
    assert!(claim_request_allowed(&song));
    assert!(!claim_request_allowed(&module));
    assert!(!claim_request_allowed(&no_start));
    assert!(check_request_allowed(&module));
    assert!(!check_request_allowed(&empty));
    assert!(find_request_allowed(&no_start));
    assert!(!find_request_allowed(&song));
}

#[test]
fn regrouping_again_without_the_published_ids_changes_nothing() {
    let rows = vec![
        StampedSpan { range_start: 10, length: 6, time: 4 },
        StampedSpan { range_start: 14, length: 5, time: 9 },
        StampedSpan { range_start: 30, length: 2, time: 1 },
    ];
    let published = vec![12, 31, 50];
    let once = plan_regroup(&rows, &published);
    let stored: Vec<StampedSpan> = once
        .iter()
        .map(|r| StampedSpan { range_start: r.range_start, length: r.length, time: r.time })
        .collect();
    assert_eq!(plan_regroup(&stored, &published), once);
}

#[test]
fn a_new_reservation_lowers_the_allowance_by_its_length() {
    let owned = vec![100, 101, 102];
    let rows = vec![ReservationSpan { range_start: 100, length: 5 }];
    let before = reservation_allowance(&owned, &rows);
    let mut after_rows = rows.clone();
    after_rows.push(ReservationSpan { range_start: 300, length: 7 });
    assert_eq!(reservation_allowance(&owned, &after_rows), before - 7);
    // A row over published ids lowers it only by its unpublished ids.
    let mut over_owned = rows.clone();
    over_owned.push(ReservationSpan { range_start: 101, length: 4 });
    assert_eq!(reservation_allowance(&owned, &over_owned), before - 2);
}
