use battle_logic::journal::{BattleJournal, SupportAssignmentLog, SupportRequestLog, SupportSupplyLog};
use battle_logic::side::Side;

fn scenario() -> BattleJournal {
    let mut j = BattleJournal::new(0);
    j.log_movement(5, Side::A, 1, "A1".to_string(), "B2".to_string(), "road", false, "1.0", "standing");
    j.log_movement(3, Side::B, 2, "C1".to_string(), "B2".to_string(), "road", false, "1.0", "standing");
    j.log_engagement(6, Side::B, 2, Side::A, 1, "(0, 0)", "B2", 3, "road", false, "prone", "4.0");
    j.log_death(7, Side::A, 1, "(5, 5)", "C9", "mud", true, "shell");
    j.log_support_request(SupportRequestLog {
        frame: 10,
        requester_squad: 1,
        threat_level_text: "3.50".to_string(),
        urgency: "Critical".to_string(),
        target_squad: Some(2),
        target_position_text: "12.5, 40".to_string(),
    });
    j.log_support_assignment(SupportAssignmentLog {
        frame: 20,
        requester_squad: 1,
        supporter_squad: 2,
        status: "en route".to_string(),
        safe_position_text: "12, 34".to_string(),
    });
    j.log_support_supply(SupportSupplyLog {
        frame: 30,
        squad: 1,
        ammo_amount: 60,
        stress_reduction: 40,
        threat_before_text: "3.50".to_string(),
        threat_after_text: "1.25".to_string(),
        threat_reduction_text: "2.25".to_string(),
    });
    j
}

#[test]
fn the_support_flow_nodes() {
    let mut j = scenario();
    assert!(j.is_phase_order(&vec![1, 2]));
    let canvas = j.close_phase(40, "t", &vec![1, 2]).canvas.unwrap();
    let ids: Vec<&str> = canvas.nodes.iter().map(|n| n.id.as_str()).collect();
    assert_eq!(
        ids,
        vec![
            "phase_1", "team_a", "team_b", "squad_1_phase_1", "request_1_10", "supporter_2_phase_1",
            "assignment_1_20", "movement_2_20", "engagement_2_20", "supply_1_30", "outcome_1_30",
            "group_B2", "ev_2_3_Movement", "ev_1_5_Movement", "ev_2_6_Engagement", "group_C9",
            "ev_1_7_Death",
        ]
    );
    let n = &canvas.nodes;
    assert_eq!(n[0].text, "# Phase 1: 지원-보급 플로우\n(프레임: 0 ~ 40)");
    assert_eq!((n[0].x, n[0].y, n[0].width, n[0].height), (-400, -200, 300, 120));
    assert_eq!(n[3].text, "분대 1\n(A진영)");
    assert_eq!((n[3].x, n[3].y), (-350, 50));
    assert_eq!(n[3].color.as_deref(), Some("4b8bdf"));
    assert_eq!(n[4].text, "🚨 지원 요청\n위협도: 3.50\n긴급도: Critical\n프레임: 10");
    assert_eq!((n[4].x, n[4].y), (-170, 50));
    assert_eq!(n[4].color.as_deref(), Some("e74c3c"));
    assert_eq!(n[5].text, "🔄 분대 2 (지원군)\n상태: en route");
    assert_eq!((n[5].x, n[5].y), (50, 500));
    assert_eq!(n[6].text, "📋 지원 할당\n2 → 1\n프레임: 20");
    assert_eq!((n[6].x, n[6].y), (230, 500));
    assert_eq!(n[7].text, "🏃 기동\n목표: 12, 34");
    assert_eq!((n[7].x, n[7].y), (440, 460));
    assert_eq!((n[8].x, n[8].y), (630, 460));
    assert_eq!(n[9].text, "📦 병력 보급\n탄약: 60발");
    assert_eq!((n[9].x, n[9].y), (40, 900));
    assert_eq!(n[10].text, "✅ 결과 (위협 완화)\n스트레스 감소: 40\n위협도: 3.50 → 1.25 (↓2.25)");
    assert_eq!((n[10].x, n[10].y), (230, 890));
}

#[test]
fn the_battle_map_nodes() {
    let mut j = scenario();
    let order = j.phase_squads();
    assert!(j.is_phase_order(&order));
    let canvas = j.close_phase(40, "t", &order).canvas.unwrap();
    let n = &canvas.nodes;
    assert_eq!(n[11].node_type, "group");
    assert!(n[11].text_is_label);
    assert!(n[11].cover_background);
    assert_eq!(n[11].text, "Sector B2");
    assert_eq!(n[11].sector.as_deref(), Some("B2"));
    assert_eq!((n[11].x, n[11].y, n[11].width, n[11].height), (-100, -100, 1200, 460));
    assert_eq!((n[12].x, n[12].y), (650, 0));
    assert_eq!(n[12].color.as_deref(), Some("df4b4b"));
    assert_eq!(n[12].text, "**[Frame 3] 분대 2**\n🏃 이동: C1 -> B2");
    assert_eq!((n[13].x, n[13].y), (50, 0));
    assert_eq!(n[13].color.as_deref(), Some("4b8bdf"));
    assert_eq!((n[14].x, n[14].y), (650, 150));
    assert_eq!(n[14].color.as_deref(), Some("e74c3c"));
    assert_eq!(n[14].text, "**[Frame 6] 분대 2**\n💥 교전 개시\n목표: 분대 1 (3명)\n위협도: 4.0");
    assert_eq!(n[15].height, 300);
    assert_eq!(n[16].color.as_deref(), Some("000000"));
    assert_eq!(n[16].text, "**[Frame 7] 분대 1**\n💀 사망\n원인: shell");
    assert_eq!(n[16].sector.as_deref(), Some("C9"));
}

#[test]
fn the_canvas_edges() {
    let mut j = scenario();
    let order = j.phase_squads();
    assert!(j.is_phase_order(&order));
    let canvas = j.close_phase(40, "t", &order).canvas.unwrap();
    let edges: Vec<(&str, &str, &str, Option<&str>, bool)> = canvas
        .edges
        .iter()
        .map(|e| (e.id.as_str(), e.from_node.as_str(), e.to_node.as_str(), e.label.as_deref(), e.arrow))
        .collect();
    assert_eq!(
        edges,
        vec![
            ("edge_0", "phase_1", "team_a", Some("소속"), false),
            ("edge_1", "phase_1", "team_b", Some("소속"), false),
            ("edge_2", "squad_1_phase_1", "request_1_10", Some("요청 생성"), true),
            ("edge_3", "team_a", "squad_1_phase_1", Some("소속"), false),
            ("edge_4", "request_1_10", "assignment_1_20", Some("할당됨"), true),
            ("edge_5", "supporter_2_phase_1", "assignment_1_20", Some("할당 대상"), true),
            ("edge_6", "assignment_1_20", "movement_2_20", Some("기동 시작"), true),
            ("edge_7", "movement_2_20", "engagement_2_20", Some("사격"), true),
            ("edge_8", "request_1_10", "supply_1_30", Some("보급 실행"), true),
            ("edge_9", "assignment_1_20", "supply_1_30", Some("보급 대기"), true),
            ("edge_10", "supply_1_30", "outcome_1_30", Some("상태 안정화"), true),
            ("edge_11", "ev_2_3_Movement", "ev_2_6_Engagement", None, true),
            ("edge_12", "ev_1_5_Movement", "ev_1_7_Death", None, true),
            ("edge_eng_13", "ev_2_6_Engagement", "ev_1_7_Death", Some("교전"), true),
        ]
    );
    assert_eq!(canvas.edges[11].color.as_deref(), Some("df4b4b"));
    assert_eq!(canvas.edges[12].color.as_deref(), Some("4b8bdf"));
    assert_eq!(canvas.edges[13].color.as_deref(), Some("e74c3c"));
    assert_eq!(canvas.edges[0].color, None);
}

#[test]
fn map_events_stay_across_phases() {
    let mut j = scenario();
    let order = j.phase_squads();
    assert!(j.is_phase_order(&order));
    j.close_phase(40, "t", &order);
    let order = j.phase_squads();
    assert!(j.is_phase_order(&order));
    let record = j.close_phase(50, "u", &order);
    let canvas = record.canvas.unwrap();
    // the support traffic was cleared, the map events were not
    assert_eq!(canvas.nodes.len(), 3 + 6);
    assert_eq!(record.canvas_index_line.as_deref(), Some("  - [[phases/Phase_2.canvas|Phase 2 통합 전황 지도 및 지원 플로우 (캔버스)]]"));
}
