use battle_logic::journal::{
    closing_index_lines, graph_settings, index_preamble, squad_page, BattleJournal,
    SupportAssignmentLog, SupportRequestLog, SupportSupplyLog,
};
use battle_logic::side::Side;

#[test]
fn a_new_journal_starts_at_phase_one() {
    let j = BattleJournal::new(42);
    assert_eq!(j.phase(), 1);
    assert_eq!(j.start_frame(), 42);
    assert_eq!(j.ammo_counts(), (0, 0, 0, 0));
    assert_eq!(j.death_totals(), (0, 0));
    assert_eq!(j.order_count(), 0);
    assert!(j.phase_squads().is_empty());
}

#[test]
fn moving_within_a_sector_writes_nothing() {
    let mut j = BattleJournal::new(0);
    let line = j.log_movement(5, Side::A, 3, "A1".to_string(), "A1".to_string(), "grass", false, "2.5", "standing");
    assert_eq!(line, None);
    assert_eq!(j.camp_of(3), Side::A);
    assert!(j.phase_squads().is_empty());
}

#[test]
fn changing_sector_writes_a_movement_line() {
    let mut j = BattleJournal::new(0);
    let line = j
        .log_movement(5, Side::A, 3, "A1".to_string(), "B2".to_string(), "grass", true, "12.5", "crouched")
        .unwrap();
    assert_eq!(
        line,
        "- [Frame 5] <span style=\"color:#4b8bdf\">[[A_Squad_3]]</span>: 섹터 이동: A1 -> B2 (진입 지형: grass, 환경: 실내, 자세: crouched, 누적 이동 거리: 12.5m) (명령: N/A)"
    );
    assert_eq!(j.phase_squads(), vec![3]);
}

#[test]
fn movement_lines_name_the_current_order() {
    let mut j = BattleJournal::new(0);
    let order = j.start_new_order("advance", 3, Side::A, 7);
    assert_eq!(order.order_id, 1);
    let line = j
        .log_movement(9, Side::A, 3, "A1".to_string(), "A2".to_string(), "road", false, "1.0", "standing")
        .unwrap();
    assert!(line.ends_with("(명령: [[Order_1]])"));
}

#[test]
fn orders_are_numbered_and_make_pages() {
    let mut j = BattleJournal::new(100);
    let first = j.start_new_order("suppress_fire", 4, Side::B, 250);
    assert_eq!(first.order_id, 1);
    assert_eq!(
        first.page,
        "---\ntitle: Order #1\ntags: [Side_B]\nsquad: \"[[B_Squad_4]]\"\ncommand: \"suppress_fire\"\nframe: 250\nphase: \"[[Phase_1]]\"\n---\n\n# Order #1\n\n## 실행 명령\n- 명령어: suppress_fire\n- 대상 분대: <span style=\"color:#df4b4b\">[[B_Squad_4]]</span>\n- 실행 프레임: 250\n\n## 관련 로그\n"
    );
    assert_eq!(first.phase_line, "- [[Order_1]] 실행됨 (Frame: 250)");
    assert_eq!(
        first.squad_page.as_deref(),
        Some("---\ntitle: B_Squad_4\ntags: [Side_B]\nfirst_seen: 100\n---\n\n# B_Squad_4\n\n## 소속 병사\n\n## 참여한 전투 (Phases)\n\n## 실행한 명령 (Orders)\n")
    );
    let second = j.start_new_order("hold", 4, Side::B, 260);
    assert_eq!(second.order_id, 2);
    assert_eq!(second.squad_page, None);
    assert_eq!(j.order_count(), 2);
}

#[test]
fn squad_pages_are_made_once() {
    let mut j = BattleJournal::new(0);
    assert!(!j.has_squad_page(1, Side::A));
    assert!(j.ensure_squad_page(1, Side::A).is_some());
    assert!(j.has_squad_page(1, Side::A));
    assert!(j.ensure_squad_page(1, Side::A).is_none());
    assert!(j.ensure_squad_page(1, Side::B).is_some());
    assert_eq!(j.ensure_squad_page(2, Side::A), Some(squad_page(2, Side::A, 0)));
}

#[test]
fn engagements_are_written_for_both_squads() {
    let mut j = BattleJournal::new(0);
    let lines = j.log_engagement(
        30, Side::A, 1, Side::B, 2, "(10, 20)", "C3", 4, "forest", false, "prone", "7.5",
    );
    assert_eq!(
        lines.attacker_line,
        "- [Frame 30] <span style=\"color:#4b8bdf\">[[A_Squad_1]]</span> → <span style=\"color:#df4b4b\">[[B_Squad_2]]</span> 교전: 대상 위치: (10, 20) (섹터: C3), 병력: 4명 (지형: forest, 환경: 실외, 자세: prone) [위협도: 7.5] (명령: N/A)"
    );
    assert_eq!(
        lines.defender_line,
        "- [Frame 30] <span style=\"color:#df4b4b\">[[B_Squad_2]]</span> 에게 교전당함 (공격자: <span style=\"color:#4b8bdf\">[[A_Squad_1]]</span>)"
    );
    assert!(lines.defender_page.is_some());
    assert_eq!(j.camp_of(1), Side::A);
    assert_eq!(j.camp_of(2), Side::B);
    assert_eq!(j.camp_of(99), Side::All);
    let again = j.log_engagement(31, Side::A, 1, Side::B, 2, "(0, 0)", "C3", 1, "forest", false, "prone", "1.0");
    assert!(again.defender_page.is_none());
}

#[test]
fn deaths_and_rounds_are_counted_per_camp() {
    let mut j = BattleJournal::new(0);
    j.log_death(1, Side::A, 1, "(1, 1)", "A1", "road", false, "bullet");
    j.log_death(2, Side::B, 2, "(2, 2)", "A1", "road", false, "bullet");
    j.log_death(3, Side::B, 2, "(2, 2)", "A1", "road", false, "shell");
    j.log_death(4, Side::All, 2, "(2, 2)", "A1", "road", false, "shell");
    assert_eq!(j.death_totals(), (1, 2));
    j.log_ammo(Side::A, 30);
    j.log_ammo(Side::B, 5);
    j.log_ammo(Side::A, 2);
    j.log_ammo(Side::All, 100);
    assert_eq!(j.ammo_counts(), (32, 5, 32, 5));
}

#[test]
fn closing_a_phase_keeps_totals_and_clears_the_phase() {
    let mut j = BattleJournal::new(0);
    j.log_ammo(Side::A, 10);
    j.log_death(1, Side::A, 1, "(1, 1)", "A1", "road", false, "bullet");
    assert!(j.is_phase_order(&vec![]));
    let record = j.close_phase(500, "flag taken", &vec![]);
    assert_eq!(record.index_line, "- [[phases/Phase_1|Phase 1 기록 보기]] (Trigger: flag taken)");
    // a death put an event on the map: the canvas is drawn and linked
    assert!(record.canvas.is_some());
    assert_eq!(
        record.canvas_index_line.as_deref(),
        Some("  - [[phases/Phase_1.canvas|Phase 1 통합 전황 지도 및 지원 플로우 (캔버스)]]")
    );
    assert_eq!(j.phase(), 2);
    assert_eq!(j.start_frame(), 500);
    assert_eq!(j.ammo_counts(), (0, 0, 10, 0));
    assert_eq!(j.death_totals(), (1, 0));
}

#[test]
fn a_quiet_phase_has_no_canvas() {
    let mut j = BattleJournal::new(0);
    assert!(j.is_phase_order(&vec![]));
    let record = j.close_phase(10, "timeout", &vec![]);
    assert!(record.canvas.is_none());
    assert!(record.canvas_index_line.is_none());
    assert_eq!(
        record.page,
        "---\nphase: 1\nstart_frame: 0\nend_frame: 10\ntrigger_event: \"timeout\"\nsquads: []\n---\n\n# Phase 1\n\n[[../index|상위 디렉토리(Index)로 돌아가기]]\n\n## 참여 분대\n\n\n## 지휘관 동선 및 교전 기록\n- 해당 페이즈에 기록된 동선 및 교전이 없습니다.\n\n## 전투 손실 (시간순)\n### 우리팀 (Side A)\n- 사상자 없음\n\n### 상대팀 (Side B)\n- 사상자 없음\n\n## 탄약 소모\n- 우리팀 (Side A) 탄약 소모량: 0\n- 상대팀 (Side B) 탄약 소모량: 0\n"
    );
}

#[test]
fn a_supply_alone_draws_a_canvas_without_index_link() {
    let mut j = BattleJournal::new(0);
    j.log_support_supply(SupportSupplyLog {
        frame: 3,
        squad: 1,
        ammo_amount: 10,
        stress_reduction: 5,
        threat_before_text: "1.00".to_string(),
        threat_after_text: "0.50".to_string(),
        threat_reduction_text: "0.50".to_string(),
    });
    assert!(j.is_phase_order(&vec![]));
    let record = j.close_phase(10, "t", &vec![]);
    assert!(record.canvas.is_some());
    assert!(record.canvas_index_line.is_none());
}

#[test]
fn the_phase_page_lists_squads_records_losses_and_rounds() {
    let mut j = BattleJournal::new(100);
    j.log_movement(110, Side::B, 10, "A1".to_string(), "A2".to_string(), "road", false, "3.0", "standing");
    j.log_movement(120, Side::A, 2, "B1".to_string(), "B2".to_string(), "road", false, "4.0", "standing");
    j.log_engagement(130, Side::A, 2, Side::B, 10, "(1, 2)", "A2", 3, "road", false, "standing", "2.0");
    j.log_death(140, Side::B, 10, "(1, 2)", "A2", "road", false, "bullet");
    j.log_ammo(Side::A, 7);
    assert_eq!(j.phase_squads(), vec![2, 10]);
    assert!(j.is_phase_order(&vec![10, 2]));
    let page = j.phase_report(200, "end", &vec![10, 2]);
    let expected = String::new()
        + "---\nphase: 1\nstart_frame: 100\nend_frame: 200\ntrigger_event: \"end\"\n"
        + "squads: [\"[[A_Squad_2]]\", \"[[B_Squad_10]]\"]\n---\n\n"
        + "# Phase 1\n\n[[../index|상위 디렉토리(Index)로 돌아가기]]\n\n"
        + "## 참여 분대\n<span style=\"color:#4b8bdf\">[[A_Squad_2]]</span>, <span style=\"color:#df4b4b\">[[B_Squad_10]]</span>\n\n"
        + "## 지휘관 동선 및 교전 기록\n"
        + "\n### <span style=\"color:#df4b4b\">[[B_Squad_10]]</span> 동선 및 교전\n"
        + "- [Frame 110] <span style=\"color:#df4b4b\">[[B_Squad_10]]</span>: 섹터 이동: A1 -> A2 (진입 지형: road, 환경: 실외, 자세: standing, 누적 이동 거리: 3.0m) (명령: N/A)\n"
        + "\n### <span style=\"color:#4b8bdf\">[[A_Squad_2]]</span> 동선 및 교전\n"
        + "- [Frame 120] <span style=\"color:#4b8bdf\">[[A_Squad_2]]</span>: 섹터 이동: B1 -> B2 (진입 지형: road, 환경: 실외, 자세: standing, 누적 이동 거리: 4.0m) (명령: N/A)\n"
        + "- [Frame 130] <span style=\"color:#4b8bdf\">[[A_Squad_2]]</span> → <span style=\"color:#df4b4b\">[[B_Squad_10]]</span> 교전: 대상 위치: (1, 2) (섹터: A2), 병력: 3명 (지형: road, 환경: 실외, 자세: standing) [위협도: 2.0] (명령: N/A)\n"
        + "\n## 전투 손실 (시간순)\n### 우리팀 (Side A)\n- 사상자 없음\n"
        + "\n### 상대팀 (Side B)\n"
        + "- [Frame 140] 병사 <span style=\"color:#df4b4b\">[[B_Squad_10]]</span> 사망 | 위치: (1, 2) (섹터: A2) (지형: road, 환경: 실외) | 원인: bullet\n"
        + "\n## 탄약 소모\n- 우리팀 (Side A) 탄약 소모량: 7\n- 상대팀 (Side B) 탄약 소모량: 0\n";
    assert_eq!(page, expected);
}

#[test]
fn the_summary_lists_pages_totals_and_phases() {
    let mut j = BattleJournal::new(0);
    j.ensure_squad_page(1, Side::A);
    j.ensure_squad_page(2, Side::B);
    j.log_ammo(Side::B, 3);
    assert!(j.is_phase_order(&vec![]));
    // a quiet first phase draws no canvas
    assert!(j.close_phase(50, "first", &vec![]).canvas.is_none());
    // a death puts the second phase on the map
    j.log_death(60, Side::B, 2, "(2, 2)", "B2", "road", false, "shell");
    assert!(j.close_phase(80, "second", &vec![]).canvas.is_some());
    let page = j.total_summary(90, "victory");
    let expected = String::new()
        + "---\nphase: total\nend_frame: 90\nend_reason: \"victory\"\n"
        + "total_squads: [\"[[A_Squad_1]]\", \"[[B_Squad_2]]\"]\n---\n\n"
        + "# Total Summary\n\n[[../index|상위 디렉토리(Index)로 돌아가기]]\n\n"
        + "## 참여한 모든 분대\n<span style=\"color:#4b8bdf\">[[A_Squad_1]]</span>, <span style=\"color:#df4b4b\">[[B_Squad_2]]</span>\n\n"
        + "## 종합 전투 손실\n- 우리팀 (Side A) 총 사망자: 0\n- 상대팀 (Side B) 총 사망자: 1\n\n"
        + "## 종합 탄약 소모\n- 우리팀 (Side A) 총 탄약 소모: 0\n- 상대팀 (Side B) 총 탄약 소모: 3\n\n"
        + "## 전체 전투 단계 (Phases)\n"
        + "- [[phases/Phase_1|Phase 1]]\n"
        + "- [[phases/Phase_2|Phase 2]]\n"
        + "  - [[phases/Phase_2.canvas|Phase 2 지원-보급 플로우 (캔버스)]]\n"
        + "- [[phases/Phase_3|Phase 3]]\n";
    assert_eq!(page, expected);
    let (a, b) = closing_index_lines("victory");
    assert_eq!(a, "\n## 종합 결과");
    assert_eq!(b, "- [[total/total|전체 종합 기록 보기]] (Reason: victory)");
}

#[test]
fn fixed_pages() {
    assert!(index_preamble().starts_with("---\ntitle: Battle Log Index\n---\n"));
    assert!(graph_settings().contains("\"rgb\": 4951007"));
    assert!(graph_settings().contains("\"rgb\": 14633803"));
}

#[test]
fn support_traffic_is_kept_for_the_phase() {
    let mut j = BattleJournal::new(0);
    j.log_support_request(SupportRequestLog {
        frame: 1,
        requester_squad: 1,
        threat_level_text: "3.25".to_string(),
        urgency: "High".to_string(),
        target_squad: None,
        target_position_text: "12.5, 40".to_string(),
    });
    j.log_support_assignment(SupportAssignmentLog {
        frame: 2,
        requester_squad: 1,
        supporter_squad: 2,
        status: "moving".to_string(),
        safe_position_text: "10, 20".to_string(),
    });
    assert_eq!(j.phase_sizes(), (1, 1, 0, 0));
    assert!(j.is_phase_order(&vec![]));
    let record = j.close_phase(3, "t", &vec![]);
    assert!(record.canvas_index_line.is_some());
    assert_eq!(j.phase_sizes(), (0, 0, 0, 0));
}

#[test]
fn ending_the_battle_closes_the_phase_and_links_its_canvas() {
    let mut j = BattleJournal::new(0);
    j.ensure_squad_page(1, Side::A);
    j.log_death(5, Side::A, 1, "(1, 1)", "A1", "road", false, "bullet");
    assert!(j.is_phase_order(&vec![]));
    j.close_phase(50, "first", &vec![]);
    j.log_death(60, Side::B, 2, "(2, 2)", "B2", "road", false, "shell");
    j.log_ammo(Side::A, 7);
    assert!(j.is_phase_order(&vec![]));
    let end = j.end_game(90, "victory", &vec![]);
    // the journal is left as closing the phase leaves it
    assert_eq!(j.phase(), 3);
    assert_eq!(j.start_frame(), 90);
    assert_eq!(j.ammo_counts(), (0, 0, 7, 0));
    // totals span every phase
    assert_eq!(j.death_totals(), (1, 1));
    assert_eq!(end.phase.index_line, "- [[phases/Phase_2|Phase 2 기록 보기]] (Trigger: victory)");
    assert!(end.phase.canvas.is_some());
    assert!(end.summary.ends_with(
        "## 전체 전투 단계 (Phases)\n\
         - [[phases/Phase_1|Phase 1]]\n  - [[phases/Phase_1.canvas|Phase 1 지원-보급 플로우 (캔버스)]]\n\
         - [[phases/Phase_2|Phase 2]]\n  - [[phases/Phase_2.canvas|Phase 2 지원-보급 플로우 (캔버스)]]\n\
         - [[phases/Phase_3|Phase 3]]\n"
    ));
    assert!(end.summary.contains("- 우리팀 (Side A) 총 사망자: 1\n- 상대팀 (Side B) 총 사망자: 1\n"));
    assert!(end.summary.contains("- 우리팀 (Side A) 총 탄약 소모: 7\n"));
    assert_eq!(end.index_heading, "\n## 종합 결과");
    assert_eq!(end.index_link, "- [[total/total|전체 종합 기록 보기]] (Reason: victory)");
}

#[test]
fn a_phase_order_lists_each_squad_of_the_phase_once() {
    let mut j = BattleJournal::new(0);
    j.log_movement(10, Side::A, 4, "A1".to_string(), "A2".to_string(), "road", false, "1.0", "standing");
    j.log_movement(20, Side::B, 9, "B1".to_string(), "B2".to_string(), "road", false, "1.0", "standing");
    assert!(j.is_phase_order(&vec![9, 4]));
    assert!(j.is_phase_order(&vec![4, 9]));
    assert!(!j.is_phase_order(&vec![4]));
    assert!(!j.is_phase_order(&vec![4, 4]));
    assert!(!j.is_phase_order(&vec![4, 7]));
    assert!(!j.is_phase_order(&vec![4, 9, 9]));
}
