use battle_logic::naming::{
    environment_label, format_squad, format_squad_link, node_color, urgency_color,
};
use battle_logic::orders::{squad_directive, SoldierDirective, SquadDirective};
use battle_logic::side::Side;
use battle_logic::text::{decimal_string, join_strings, same_text, sort_strings, text_le_exec};

#[test]
fn decimal_notation() {
    assert_eq!(decimal_string(0), "0");
    assert_eq!(decimal_string(7), "7");
    assert_eq!(decimal_string(10), "10");
    assert_eq!(decimal_string(1800), "1800");
    assert_eq!(decimal_string(u64::MAX), u64::MAX.to_string());
}

#[test]
fn squad_names_and_links() {
    assert_eq!(format_squad(3, Side::A), "A_Squad_3");
    assert_eq!(format_squad(12, Side::B), "B_Squad_12");
    assert_eq!(format_squad(0, Side::All), "All_Squad_0");
    assert_eq!(
        format_squad_link(3, Side::A),
        "<span style=\"color:#4b8bdf\">[[A_Squad_3]]</span>"
    );
    assert_eq!(
        format_squad_link(4, Side::B),
        "<span style=\"color:#df4b4b\">[[B_Squad_4]]</span>"
    );
    assert_eq!(
        format_squad_link(5, Side::All),
        "<span style=\"color:gray\">[[All_Squad_5]]</span>"
    );
}

#[test]
fn colours() {
    assert_eq!(urgency_color("Critical"), "e74c3c");
    assert_eq!(urgency_color("High"), "e67e22");
    assert_eq!(urgency_color("Medium"), "f1c40f");
    assert_eq!(urgency_color("Low"), "2ecc71");
    assert_eq!(urgency_color("low"), "888888");
    assert_eq!(node_color(Some(Side::A)), "4b8bdf");
    assert_eq!(node_color(Some(Side::B)), "df4b4b");
    assert_eq!(node_color(Some(Side::All)), "888888");
    assert_eq!(node_color(None), "888888");
    assert_eq!(environment_label(true), "실내");
    assert_eq!(environment_label(false), "실외");
}

#[test]
fn texts_sort_as_rust_sorts_strings() {
    let v: Vec<String> = vec!["B_Squad_1", "A_Squad_10", "A_Squad_2", "All_Squad_1", "A_Squad_1"]
        .into_iter()
        .map(String::from)
        .collect();
    let mut expected = v.clone();
    expected.sort();
    assert_eq!(sort_strings(v), expected);
    assert!(text_le_exec("abc", "abd"));
    assert!(text_le_exec("ab", "abc"));
    assert!(!text_le_exec("abc", "ab"));
    assert!(text_le_exec("", ""));
    assert!(text_le_exec("가", "나"));
}

#[test]
fn joining_and_comparing_texts() {
    let v: Vec<String> = vec!["a".to_string(), "b".to_string(), "c".to_string()];
    assert_eq!(join_strings(&v, ", "), "a, b, c");
    assert_eq!(join_strings(&vec![], ", "), "");
    assert_eq!(join_strings(&vec!["x".to_string()], ", "), "x");
    assert!(same_text("분대", "분대"));
    assert!(!same_text("a", "ab"));
}

#[test]
fn squad_directives_expand_per_member() {
    let out = squad_directive(&vec![4, 9], SquadDirective::StandDown);
    assert_eq!(
        out,
        vec![
            (4, SoldierDirective::OrderIdle),
            (4, SoldierDirective::BehaviorIdleCrouched),
            (4, SoldierDirective::GestureIdle),
            (9, SoldierDirective::OrderIdle),
            (9, SoldierDirective::BehaviorIdleCrouched),
            (9, SoldierDirective::GestureIdle),
        ]
    );
    let out = squad_directive(&vec![1], SquadDirective::Rush);
    assert_eq!(
        out,
        vec![
            (1, SoldierDirective::OrderRush),
            (1, SoldierDirective::BehaviorRush),
            (1, SoldierDirective::GestureIdle),
        ]
    );
    assert!(squad_directive(&vec![], SquadDirective::Rush).is_empty());
}
