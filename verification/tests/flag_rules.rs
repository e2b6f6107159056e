use battle_logic::flags::{
    capture_reaction, is_flag_frame, next_ownership, ownerships_changed, scout_group_key, Ban,
    FlagBook, Hold, ScoutTurn, FOREVER, HOLD_LIMIT, UNRECORDED_SQUAD,
};
use battle_logic::side::FlagOwnership::{Both, Nobody, A, B};
use battle_logic::side::{FlagOwnership, Side};

#[test]
fn ownership_follows_who_is_inside() {
    let table = [
        (Nobody, true, true, Both),
        (Nobody, true, false, A),
        (Nobody, false, true, B),
        (Nobody, false, false, Nobody),
        (A, true, true, Both),
        (A, true, false, A),
        (A, false, true, B),
        (A, false, false, A),
        (B, true, true, Both),
        (B, true, false, A),
        (B, false, true, B),
        (B, false, false, B),
        (Both, true, true, Both),
        (Both, true, false, A),
        (Both, false, true, B),
        (Both, false, false, Both),
    ];
    for (old, a, b, new) in table {
        assert_eq!(next_ownership(old, a, b), new);
    }
}

#[test]
fn ownership_settles_after_one_tick() {
    for old in [Nobody, A, B, Both] {
        for a in [false, true] {
            for b in [false, true] {
                let once = next_ownership(old, a, b);
                assert_eq!(next_ownership(once, a, b), once);
            }
        }
    }
}

#[test]
fn flags_update_on_multiples_of_the_period() {
    assert!(is_flag_frame(0, 60));
    assert!(is_flag_frame(120, 60));
    assert!(!is_flag_frame(121, 60));
}

#[test]
fn a_camp_entering_takes_the_flag_and_starts_a_hold() {
    let mut book = FlagBook::new(2);
    let step = book.tick_flag(0, 100, FlagOwnership::Nobody, &vec![7, 8], &vec![]);
    assert_eq!(step.ownership, FlagOwnership::A);
    assert_eq!(step.taken_by, Some(Side::A));
    assert_eq!(step.taker, Some(7));
    assert_eq!(step.expired_holder, None);
    assert_eq!(book.track(0).hold, Some(Hold { since: 100, squad: Some(7) }));
    assert_eq!(book.track(1).hold, None);
}

#[test]
fn both_camps_inside_share_the_flag_without_hold() {
    let mut book = FlagBook::new(1);
    let step = book.tick_flag(0, 10, FlagOwnership::A, &vec![1], &vec![2]);
    assert_eq!(step.ownership, FlagOwnership::Both);
    assert_eq!(step.taken_by, None);
    assert_eq!(book.track(0).hold, None);
}

#[test]
fn a_hold_runs_out_after_the_limit_and_bans_the_holder() {
    let mut book = FlagBook::new(1);
    book.tick_flag(0, 1000, FlagOwnership::Nobody, &vec![5], &vec![]);
    let step = book.tick_flag(0, 1000 + HOLD_LIMIT - 1, FlagOwnership::A, &vec![5], &vec![]);
    assert_eq!(step.ownership, FlagOwnership::A);
    let step = book.tick_flag(0, 1000 + HOLD_LIMIT, FlagOwnership::A, &vec![5], &vec![]);
    assert_eq!(step.ownership, FlagOwnership::Nobody);
    assert!(step.released);
    assert_eq!(step.expired_holder, Some(5));
    assert_eq!(book.track(0).hold, None);
    assert_eq!(book.track(0).ban, Some(Ban { until: FOREVER, squad: 5 }));
    // the banned squad no longer counts, even much later
    book.drop_stale_bans(1_000_000);
    assert_eq!(book.unbanned_squads(0, &vec![5, 6], 1_000_000), vec![6]);
    let step = book.tick_flag(0, 1_000_000, FlagOwnership::Nobody, &vec![5], &vec![]);
    assert_eq!(step.ownership, FlagOwnership::Nobody);
}

#[test]
fn an_empty_flag_keeps_its_owner_and_its_hold_runs_out() {
    let mut book = FlagBook::new(1);
    book.tick_flag(0, 0, FlagOwnership::Nobody, &vec![], &vec![9]);
    let step = book.tick_flag(0, 1799, FlagOwnership::B, &vec![], &vec![]);
    assert_eq!(step.ownership, FlagOwnership::B);
    let step = book.tick_flag(0, 1800, FlagOwnership::B, &vec![], &vec![]);
    assert_eq!(step.ownership, FlagOwnership::Nobody);
    assert_eq!(step.expired_holder, Some(9));
}

#[test]
fn a_new_squad_restarts_the_hold() {
    let mut book = FlagBook::new(1);
    book.tick_flag(0, 0, FlagOwnership::Nobody, &vec![1], &vec![]);
    book.tick_flag(0, 1000, FlagOwnership::A, &vec![2], &vec![]);
    assert_eq!(book.track(0).hold, Some(Hold { since: 1000, squad: Some(2) }));
    let step = book.tick_flag(0, 1900, FlagOwnership::A, &vec![2], &vec![]);
    assert_eq!(step.ownership, FlagOwnership::A);
}

#[test]
fn another_squad_taking_the_flag_lifts_the_ban() {
    let mut book = FlagBook::new(1);
    book.tick_flag(0, 0, FlagOwnership::Nobody, &vec![3], &vec![]);
    book.tick_flag(0, 1800, FlagOwnership::A, &vec![3], &vec![]);
    assert_eq!(book.track(0).ban, Some(Ban { until: FOREVER, squad: 3 }));
    let step = book.tick_flag(0, 1900, FlagOwnership::Nobody, &vec![], &vec![4]);
    assert_eq!(step.ownership, FlagOwnership::B);
    assert!(step.ban_lifted);
    assert_eq!(book.track(0).ban, None);
}

#[test]
fn the_banned_squad_alone_cannot_take_the_flag() {
    let mut book = FlagBook::new(1);
    book.tick_flag(0, 0, FlagOwnership::Nobody, &vec![3], &vec![]);
    book.tick_flag(0, 1800, FlagOwnership::A, &vec![3], &vec![]);
    let step = book.tick_flag(0, 1900, FlagOwnership::Nobody, &vec![3, 3], &vec![]);
    assert_eq!(step.ownership, FlagOwnership::Nobody);
    assert!(!step.ban_lifted);
    assert_eq!(book.track(0).ban, Some(Ban { until: FOREVER, squad: 3 }));
}

#[test]
fn stale_bans_are_dropped_and_live_ones_kept() {
    let mut book = FlagBook::new(1);
    book.tick_flag(0, 0, FlagOwnership::Nobody, &vec![3], &vec![]);
    book.tick_flag(0, 1800, FlagOwnership::A, &vec![3], &vec![]);
    book.drop_stale_bans(5000);
    assert!(book.track(0).ban.is_some());
    book.drop_stale_bans(FOREVER);
    assert_eq!(book.track(0).ban, None);
}

#[test]
fn retreat_goes_to_the_nearest_flag_not_banned_nor_owned() {
    let mut book = FlagBook::new(4);
    // ban squad 3 from flag 0
    book.tick_flag(0, 0, FlagOwnership::Nobody, &vec![3], &vec![]);
    book.tick_flag(0, 1800, FlagOwnership::A, &vec![3], &vec![]);
    let owners = vec![
        FlagOwnership::Nobody,
        FlagOwnership::A,
        FlagOwnership::B,
        FlagOwnership::Nobody,
    ];
    // flag 0 banned, flag 1 owned by camp A: the nearest of 2 and 3
    assert_eq!(book.retreat_target(3, Side::A, &owners, &vec![1, 2, 50, 40]), Some(3));
    assert_eq!(book.retreat_target(3, Side::A, &owners, &vec![1, 2, 40, 40]), Some(2));
    // camp B owns flag 2: only flag 1 and 3 remain, flag 1 is nearer
    assert_eq!(book.retreat_target(3, Side::B, &owners, &vec![1, 2, 5, 40]), Some(1));
    let all_taken = vec![FlagOwnership::Both; 4];
    assert_eq!(book.retreat_target(9, Side::B, &all_taken, &vec![1, 2, 3, 4]), None);
}

#[test]
fn scout_group_key_names_the_smallest_squad() {
    assert_eq!(scout_group_key(Side::A, &vec![12, 4, 30]), "A-group-4");
    assert_eq!(scout_group_key(Side::B, &vec![0]), "B-group-0");
}

#[test]
fn scouts_rotate_only_after_the_gap() {
    let mut turn = ScoutTurn::new();
    assert!(!turn.advance(180));
    assert!(turn.advance(181));
    assert_eq!(turn, ScoutTurn { turn: 1, last_frame: 181 });
    assert!(!turn.advance(361));
    assert!(turn.advance(362));
    assert_eq!(turn.turn, 2);
}

#[test]
fn soldiers_of_the_taking_camp_react() {
    let r = capture_reaction(Side::A, Side::A, true, Some(30), 40, true, true);
    assert!(r.relieve_stress && r.cease_fire && r.rotate_scouts && r.return_to_checkpoint);
    let r = capture_reaction(Side::A, Side::A, true, Some(31), 41, true, true);
    assert!(r.relieve_stress && !r.cease_fire && !r.rotate_scouts && !r.return_to_checkpoint);
    let r = capture_reaction(Side::A, Side::A, true, None, 10, false, true);
    assert!(r.relieve_stress && !r.cease_fire && !r.rotate_scouts && !r.return_to_checkpoint);
    let r = capture_reaction(Side::A, Side::B, true, Some(0), 0, true, true);
    assert!(!r.relieve_stress && !r.cease_fire);
    let r = capture_reaction(Side::B, Side::B, false, Some(0), 0, true, true);
    assert!(!r.relieve_stress && !r.return_to_checkpoint);
}

#[test]
fn ownership_lists_are_compared_in_full() {
    let a = vec![FlagOwnership::A, FlagOwnership::Nobody];
    assert!(!ownerships_changed(&a, &a.clone()));
    assert!(ownerships_changed(&a, &vec![FlagOwnership::A, FlagOwnership::B]));
    assert!(ownerships_changed(&a, &vec![FlagOwnership::A]));
}

#[test]
fn squad_zero_keeps_its_timer_and_its_hold_runs_out() {
    let mut book = FlagBook::new(1);
    book.tick_flag(0, 0, FlagOwnership::Nobody, &vec![0], &vec![]);
    assert_eq!(book.track(0).hold, Some(Hold { since: 0, squad: Some(0) }));
    let step = book.tick_flag(0, 900, FlagOwnership::A, &vec![0], &vec![]);
    assert_eq!(step.ownership, FlagOwnership::A);
    assert_eq!(book.track(0).hold, Some(Hold { since: 0, squad: Some(0) }));
    let step = book.tick_flag(0, 1800, FlagOwnership::A, &vec![0], &vec![]);
    assert_eq!(step.ownership, FlagOwnership::Nobody);
    assert!(step.released);
    assert_eq!(step.expired_holder, Some(0));
    assert_eq!(book.track(0).ban, Some(Ban { until: FOREVER, squad: 0 }));
}

#[test]
fn a_hold_with_no_squad_on_record_runs_out_and_bans_squad_zero() {
    let mut book = FlagBook::new(1);
    // squad 3 held the flag for camp A, ran out and was banned
    book.tick_flag(0, 0, FlagOwnership::Nobody, &vec![3], &vec![]);
    book.tick_flag(0, 1800, FlagOwnership::A, &vec![3], &vec![]);
    assert_eq!(book.track(0).ban, Some(Ban { until: FOREVER, squad: 3 }));
    // camp B owns the flag with nobody inside: the hold starts with no squad
    let step = book.tick_flag(0, 1860, FlagOwnership::B, &vec![], &vec![]);
    assert_eq!(step.ownership, FlagOwnership::B);
    assert_eq!(book.track(0).hold, Some(Hold { since: 1860, squad: None }));
    let step = book.tick_flag(0, 1860 + HOLD_LIMIT, FlagOwnership::B, &vec![], &vec![]);
    assert_eq!(step.ownership, FlagOwnership::Nobody);
    assert!(step.released);
    assert_eq!(step.expired_holder, None);
    // the never-ending ban falls on squad 0 and replaces the earlier one
    assert_eq!(book.track(0).ban, Some(Ban { until: FOREVER, squad: UNRECORDED_SQUAD }));
    assert_eq!(UNRECORDED_SQUAD, 0);
}

#[test]
fn a_squad_arriving_at_a_hold_with_no_squad_restarts_it() {
    let mut book = FlagBook::new(1);
    book.tick_flag(0, 60, FlagOwnership::B, &vec![], &vec![]);
    book.tick_flag(0, 120, FlagOwnership::B, &vec![], &vec![4]);
    assert_eq!(book.track(0).hold, Some(Hold { since: 120, squad: Some(4) }));
}

#[test]
fn the_book_fits_the_flag_count() {
    let mut book = FlagBook::new(1);
    book.tick_flag(0, 0, FlagOwnership::Nobody, &vec![1], &vec![]);
    book.fit(3);
    assert_eq!(book.len(), 3);
    assert_eq!(book.track(0).hold, Some(Hold { since: 0, squad: Some(1) }));
    assert_eq!(book.track(2).hold, None);
    book.fit(0);
    assert_eq!(book.len(), 0);
}
