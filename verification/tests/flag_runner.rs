use battle_logic::flags::ScoutTurn;
use battle_logic::orders::SoldierDirective;
use battle_logic::runner::{
    BattleScene, CompanyView, FlagCommand, FlagRunner, FlagScene, ScoutRotationFault, SoldierView,
    SquadView, STRESS_RELIEF,
};
use battle_logic::side::{FlagOwnership, Side};

fn scene(frame: u64, ownerships: Vec<FlagOwnership>, inside: Vec<(Vec<u64>, Vec<u64>)>) -> BattleScene {
    BattleScene {
        frame,
        update_every: 60,
        ownerships,
        flags: inside.into_iter().map(|(a, b)| FlagScene { a_inside: a, b_inside: b }).collect(),
        squads: vec![],
        soldiers: vec![],
        companies: vec![],
    }
}

#[test]
fn nothing_happens_between_updates() {
    let mut runner = FlagRunner::new(1);
    let s = scene(61, vec![FlagOwnership::Nobody], vec![(vec![1], vec![])]);
    let (commands, ownerships) = runner.tick(&s).unwrap();
    assert!(commands.is_empty());
    assert!(ownerships.is_none());
    assert_eq!(runner.track(0).hold, None);
}

#[test]
fn squad_zero_is_released_and_rushes_to_the_nearest_free_flag() {
    let mut runner = FlagRunner::new(3);
    let first = scene(0, vec![FlagOwnership::Nobody; 3], vec![(vec![0], vec![]), (vec![], vec![]), (vec![], vec![])]);
    let (_, owners) = runner.tick(&first).unwrap();
    assert_eq!(owners, Some(vec![FlagOwnership::A, FlagOwnership::Nobody, FlagOwnership::Nobody]));
    let mut later = scene(
        1800,
        vec![FlagOwnership::A, FlagOwnership::Nobody, FlagOwnership::Nobody],
        vec![(vec![0], vec![]), (vec![], vec![]), (vec![], vec![])],
    );
    later.squads = vec![SquadView { id: 0, camp: Side::A, members: vec![10, 11], leader_distances: vec![0, 90, 40] }];
    let (commands, owners) = runner.tick(&later).unwrap();
    let rush = |soldier: usize, directive: SoldierDirective| FlagCommand::Soldier { soldier, directive, toward: Some(2) };
    assert_eq!(
        commands,
        vec![
            FlagCommand::Released { flag: 0, holder: Some(0) },
            FlagCommand::Retreat { squad: 0, flag: 2 },
            rush(10, SoldierDirective::OrderRush),
            rush(10, SoldierDirective::BehaviorRush),
            rush(10, SoldierDirective::GestureIdle),
            rush(11, SoldierDirective::OrderRush),
            rush(11, SoldierDirective::BehaviorRush),
            rush(11, SoldierDirective::GestureIdle),
        ]
    );
    assert_eq!(owners, Some(vec![FlagOwnership::Nobody, FlagOwnership::Nobody, FlagOwnership::Nobody]));
}

#[test]
fn a_released_squad_with_nowhere_to_go_stands_down() {
    let mut runner = FlagRunner::new(1);
    runner.tick(&scene(0, vec![FlagOwnership::Nobody], vec![(vec![4], vec![])])).unwrap();
    let mut later = scene(1800, vec![FlagOwnership::A], vec![(vec![4], vec![])]);
    later.squads = vec![SquadView { id: 4, camp: Side::A, members: vec![7], leader_distances: vec![0] }];
    let (commands, _) = runner.tick(&later).unwrap();
    let down = |directive: SoldierDirective| FlagCommand::Soldier { soldier: 7, directive, toward: None };
    assert_eq!(
        commands,
        vec![
            FlagCommand::Released { flag: 0, holder: Some(4) },
            down(SoldierDirective::OrderIdle),
            down(SoldierDirective::BehaviorIdleCrouched),
            down(SoldierDirective::GestureIdle),
        ]
    );
}

#[test]
fn a_capture_relieves_stress_calls_off_fire_rotates_scouts_and_returns_the_leader() {
    let mut runner = FlagRunner::new(1);
    let mut s = scene(240, vec![FlagOwnership::Nobody], vec![(vec![3], vec![])]);
    s.soldiers = vec![
        SoldierView {
            id: 1,
            squad: 3,
            side: Side::A,
            alive: true,
            is_leader: true,
            has_checkpoint: true,
            suppress_distances: vec![Some(10)],
            flag_distances: vec![5],
        },
        SoldierView {
            id: 2,
            squad: 8,
            side: Side::B,
            alive: true,
            is_leader: true,
            has_checkpoint: true,
            suppress_distances: vec![None],
            flag_distances: vec![5],
        },
    ];
    s.companies = vec![CompanyView { side: Side::A, squads: vec![5, 3], scout_squad: Some(3) }];
    let (commands, owners) = runner.tick(&s).unwrap();
    assert_eq!(
        commands,
        vec![
            FlagCommand::RelieveStress { soldier: 1, amount: STRESS_RELIEF },
            FlagCommand::Soldier { soldier: 1, directive: SoldierDirective::OrderIdle, toward: None },
            FlagCommand::Soldier { soldier: 1, directive: SoldierDirective::BehaviorIdleCrouched, toward: None },
            FlagCommand::ScoutsRotated { company: 0 },
            FlagCommand::ReturnToCheckpoint { soldier: 1 },
        ]
    );
    assert_eq!(STRESS_RELIEF, 200);
    assert_eq!(owners, Some(vec![FlagOwnership::A]));
    assert_eq!(runner.scout_turn(&"A-group-3".to_string()), Some(ScoutTurn { turn: 1, last_frame: 240 }));
    assert_eq!(runner.scout_turn(&"B-group-3".to_string()), None);
}

#[test]
fn an_unchanged_owner_is_not_announced() {
    let mut runner = FlagRunner::new(1);
    let (commands, owners) = runner.tick(&scene(120, vec![FlagOwnership::B], vec![(vec![], vec![2])])).unwrap();
    assert!(commands.is_empty());
    assert_eq!(owners, None);
}

#[test]
fn scouts_do_not_rotate_within_the_gap() {
    let mut runner = FlagRunner::new(1);
    let mut s = scene(60, vec![FlagOwnership::Nobody], vec![(vec![3], vec![])]);
    s.soldiers = vec![SoldierView {
        id: 1,
        squad: 3,
        side: Side::A,
        alive: true,
        is_leader: true,
        has_checkpoint: false,
        suppress_distances: vec![None],
        flag_distances: vec![40],
    }];
    s.companies = vec![CompanyView { side: Side::A, squads: vec![3], scout_squad: Some(3) }];
    let (commands, _) = runner.tick(&s).unwrap();
    assert_eq!(commands, vec![FlagCommand::RelieveStress { soldier: 1, amount: 200 }]);
    assert_eq!(runner.scout_turn(&"A-group-3".to_string()), Some(ScoutTurn { turn: 0, last_frame: 0 }));
}

fn leader(squad: u64) -> SoldierView {
    SoldierView {
        id: 1,
        squad,
        side: Side::A,
        alive: true,
        is_leader: true,
        has_checkpoint: false,
        suppress_distances: vec![None],
        flag_distances: vec![0],
    }
}

#[test]
fn an_empty_company_only_stops_the_tick_when_its_scouts_must_rotate() {
    let mut runner = FlagRunner::new(1);
    let mut s = scene(240, vec![FlagOwnership::Nobody], vec![(vec![3], vec![])]);
    s.soldiers = vec![leader(3)];
    // an empty company whose scouts are another squad is left alone
    s.companies = vec![CompanyView { side: Side::A, squads: vec![], scout_squad: Some(9) }];
    assert!(runner.tick(&s).is_ok());
    let mut runner = FlagRunner::new(1);
    s.companies = vec![CompanyView { side: Side::A, squads: vec![], scout_squad: Some(3) }];
    assert_eq!(runner.tick(&s), Err(ScoutRotationFault));
}

#[test]
fn an_off_frame_scene_need_not_fit() {
    let mut runner = FlagRunner::new(2);
    let s = scene(61, vec![FlagOwnership::Nobody], vec![]);
    assert_eq!(runner.tick(&s).unwrap().0, vec![]);
}
