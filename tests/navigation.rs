use snapmixer::focus::{move_focus, move_focus_group, get_group_ids, FocusMove};
use snapmixer::topology::{
    get_all_focusable_ids, get_client_name, get_group_id_of_client, get_group_name, sort_clients,
    sort_groups, Endpoint, Group, Snapshot,
};

fn endpoint(id: &str, name: &str, percent: u64) -> Endpoint {
    Endpoint {
        id: id.to_string(),
        name: name.to_string(),
        host_name: String::new(),
        percent,
        muted: false,
    }
}

fn group(id: &str, name: &str, members: &[&str]) -> Group {
    Group {
        id: id.to_string(),
        name: name.to_string(),
        muted: false,
        members: members.iter().map(|m| m.to_string()).collect(),
    }
}

/// Rows in order: G1, c1, c2, G2, c3 (listed out of order on purpose).
fn sample() -> Snapshot {
    Snapshot {
        groups: vec![group("g2", "Kitchen", &["c3"]), group("g1", "Attic", &["c2", "c1"])],
        endpoints: vec![
            endpoint("c3", "Radio", 10),
            endpoint("c2", "Speaker B", 20),
            endpoint("c1", "Speaker A", 30),
        ],
    }
}

fn ids(v: &[&str]) -> Vec<String> {
    v.iter().map(|s| s.to_string()).collect()
}

fn changed(m: FocusMove) -> Option<String> {
    match m {
        FocusMove::Changed(id) => Some(id),
        FocusMove::Unchanged => None,
    }
}

#[test]
fn flattened_rows_follow_names() {
    let s = sample();
    assert!(s.is_well_formed());
    assert_eq!(get_all_focusable_ids(&s), ids(&["g1", "c1", "c2", "g2", "c3"]));
    assert_eq!(get_group_ids(&s), ids(&["g1", "g2"]));
    assert_eq!(sort_groups(&s), vec![1, 0]);
    assert_eq!(sort_clients(1, &s), vec![2, 1]);
}

#[test]
fn input_order_does_not_show() {
    let mut s = sample();
    s.groups.reverse();
    s.endpoints.reverse();
    s.groups[0].members.reverse();
    assert_eq!(get_all_focusable_ids(&s), ids(&["g1", "c1", "c2", "g2", "c3"]));
}

#[test]
fn renaming_reorders_rows() {
    let mut s = sample();
    s.groups[0].name = "Aardvark".to_string();
    s.endpoints[2].name = "Zebra".to_string();
    assert_eq!(get_all_focusable_ids(&s), ids(&["g2", "c3", "g1", "c2", "c1"]));
}

#[test]
fn equal_names_sort_by_id() {
    let s = Snapshot {
        groups: vec![group("b", "", &[]), group("a", "", &[]), group("c", "Same", &["y", "x"])],
        endpoints: vec![endpoint("y", "Twin", 5), endpoint("x", "Twin", 5)],
    };
    assert_eq!(get_all_focusable_ids(&s), ids(&["a", "b", "c", "x", "y"]));
}

#[test]
fn display_names_fall_back() {
    let g = group("g7", "", &[]);
    assert_eq!(get_group_name(&g), "Group with ID g7");
    let mut e = endpoint("e1", "", 0);
    assert_eq!(get_client_name(&e), "Client with ID e1");
    e.host_name = "den".to_string();
    assert_eq!(get_client_name(&e), "Client on host den");
    e.name = "Den".to_string();
    assert_eq!(get_client_name(&e), "Den");
}

#[test]
fn parent_group_of_endpoint() {
    let s = sample();
    assert_eq!(get_group_id_of_client(&"c2".to_string(), &s), Some("g1".to_string()));
    assert_eq!(get_group_id_of_client(&"c3".to_string(), &s), Some("g2".to_string()));
    assert_eq!(get_group_id_of_client(&"zz".to_string(), &s), None);
}

#[test]
fn well_formedness_check() {
    let mut s = sample();
    assert!(s.is_well_formed());
    s.endpoints[0].percent = 101;
    assert!(!s.is_well_formed());
    let mut t = sample();
    t.groups[1].id = "g2".to_string();
    assert!(!t.is_well_formed());
}

#[test]
fn row_moves_scenario() {
    let s = sample();
    assert_eq!(changed(move_focus(1, &None, &s)), Some("g1".to_string()));
    assert_eq!(changed(move_focus(1, &Some("c2".to_string()), &s)), Some("g2".to_string()));
    assert!(matches!(move_focus(1, &Some("c3".to_string()), &s), FocusMove::Unchanged));
}

#[test]
fn row_moves_enter_from_either_end() {
    let s = sample();
    assert_eq!(changed(move_focus(-1, &None, &s)), Some("c3".to_string()));
    assert_eq!(changed(move_focus(2, &None, &s)), Some("g1".to_string()));
    assert_eq!(changed(move_focus(1, &Some("gone".to_string()), &s)), Some("g1".to_string()));
    assert_eq!(changed(move_focus(-1, &Some("gone".to_string()), &s)), Some("c3".to_string()));
}

#[test]
fn row_moves_stop_at_the_first_row() {
    let s = sample();
    let mut focus = Some("c1".to_string());
    focus = changed(move_focus(-1, &focus, &s)).or(focus);
    assert_eq!(focus, Some("g1".to_string()));
    for _ in 0..3 {
        assert!(matches!(move_focus(-1, &focus, &s), FocusMove::Unchanged));
    }
    assert_eq!(changed(move_focus(-5, &Some("c2".to_string()), &s)), Some("g1".to_string()));
    assert_eq!(changed(move_focus(9, &Some("c2".to_string()), &s)), Some("c3".to_string()));
    assert!(matches!(move_focus(0, &Some("c2".to_string()), &s), FocusMove::Unchanged));
}

#[test]
fn rows_of_an_empty_snapshot() {
    let s = Snapshot { groups: vec![], endpoints: vec![] };
    assert!(matches!(move_focus(1, &None, &s), FocusMove::Unchanged));
    assert!(matches!(move_focus_group(-1, &None, &s), FocusMove::Unchanged));
}

#[test]
fn group_jumps_from_a_member() {
    let s = sample();
    assert_eq!(changed(move_focus_group(-1, &Some("c2".to_string()), &s)), Some("g1".to_string()));
    assert_eq!(changed(move_focus_group(1, &Some("c2".to_string()), &s)), Some("g2".to_string()));
    assert_eq!(changed(move_focus_group(-1, &Some("c3".to_string()), &s)), Some("g2".to_string()));
    assert_eq!(changed(move_focus_group(1, &Some("c3".to_string()), &s)), Some("g2".to_string()));
}

#[test]
fn group_jumps_between_groups() {
    let s = sample();
    assert_eq!(changed(move_focus_group(1, &None, &s)), Some("g1".to_string()));
    assert_eq!(changed(move_focus_group(-1, &None, &s)), Some("g2".to_string()));
    assert_eq!(changed(move_focus_group(1, &Some("g1".to_string()), &s)), Some("g2".to_string()));
    assert!(matches!(move_focus_group(1, &Some("g2".to_string()), &s), FocusMove::Unchanged));
    assert!(matches!(move_focus_group(-1, &Some("g1".to_string()), &s), FocusMove::Unchanged));
    assert_eq!(changed(move_focus_group(-1, &Some("nobody".to_string()), &s)), Some("g2".to_string()));
}
