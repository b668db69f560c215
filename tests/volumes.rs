use snapmixer::shadow::{round_level, ShadowVolumes, MAX_LEVEL, STEPS_PER_PERCENT};
use snapmixer::topology::{Endpoint, Group, Snapshot};
use snapmixer::volume::{reconcile, set_volume, set_volume_delta, Command};

const P: u64 = STEPS_PER_PERCENT;

fn endpoint(id: &str, percent: u64, muted: bool) -> Endpoint {
    Endpoint {
        id: id.to_string(),
        name: id.to_uppercase(),
        host_name: String::new(),
        percent,
        muted,
    }
}

fn snapshot(a: u64, b: u64) -> Snapshot {
    Snapshot {
        groups: vec![Group {
            id: "G".to_string(),
            name: "Living room".to_string(),
            muted: false,
            members: vec!["A".to_string(), "B".to_string()],
        }],
        endpoints: vec![endpoint("A", a, false), endpoint("B", b, true)],
    }
}

/// (id, percent, muted) of each volume command.
fn sent(cmds: &[Command]) -> Vec<(String, u64, bool)> {
    cmds.iter()
        .map(|c| match c {
            Command::SetEndpointVolume { id, percent, muted } => (id.clone(), *percent, *muted),
            _ => panic!("not a volume command"),
        })
        .collect()
}

fn level(shadow: &ShadowVolumes, id: &str) -> Option<u64> {
    shadow.get(&id.to_string())
}

fn focus(id: &str) -> Option<String> {
    Some(id.to_string())
}

#[test]
fn group_scales_proportionally() {
    let s = snapshot(40, 20);
    let mut shadow = ShadowVolumes::new();
    let cmds = set_volume((60 * P) as i64, &focus("G"), &mut shadow, &s);
    assert_eq!(
        sent(&cmds),
        vec![("A".to_string(), 60, false), ("B".to_string(), 30, true)]
    );
    assert_eq!(level(&shadow, "A"), Some(60 * P));
    assert_eq!(level(&shadow, "B"), Some(30 * P));
}

#[test]
fn silent_group_takes_the_target() {
    let s = snapshot(0, 0);
    let mut shadow = ShadowVolumes::new();
    let cmds = set_volume((25 * P) as i64, &focus("G"), &mut shadow, &s);
    assert_eq!(
        sent(&cmds),
        vec![("A".to_string(), 25, false), ("B".to_string(), 25, true)]
    );
    assert_eq!(level(&shadow, "A"), Some(25 * P));
    assert_eq!(level(&shadow, "B"), Some(25 * P));
}

#[test]
fn scaling_keeps_fractions_between_steps() {
    let s = snapshot(30, 10);
    let mut shadow = ShadowVolumes::new();
    let cmds = set_volume((10 * P) as i64, &focus("G"), &mut shadow, &s);
    assert_eq!(
        sent(&cmds),
        vec![("A".to_string(), 10, false), ("B".to_string(), 3, true)]
    );
    assert_eq!(level(&shadow, "B"), Some(3_333_333));
    let cmds = set_volume((30 * P) as i64, &focus("G"), &mut shadow, &s);
    assert_eq!(
        sent(&cmds),
        vec![("A".to_string(), 30, false), ("B".to_string(), 10, true)]
    );
    assert_eq!(level(&shadow, "B"), Some(9_999_999));
}

#[test]
fn single_endpoint_is_set_directly() {
    let s = snapshot(40, 20);
    let mut shadow = ShadowVolumes::new();
    let cmds = set_volume((70 * P) as i64, &focus("B"), &mut shadow, &s);
    assert_eq!(sent(&cmds), vec![("B".to_string(), 70, true)]);
    assert_eq!(level(&shadow, "B"), Some(70 * P));
    assert_eq!(level(&shadow, "A"), None);
}

#[test]
fn target_is_clamped() {
    let s = snapshot(40, 20);
    let mut shadow = ShadowVolumes::new();
    let cmds = set_volume(-5, &focus("A"), &mut shadow, &s);
    assert_eq!(sent(&cmds), vec![("A".to_string(), 0, false)]);
    let cmds = set_volume(i64::MAX, &focus("A"), &mut shadow, &s);
    assert_eq!(sent(&cmds), vec![("A".to_string(), 100, false)]);
    assert_eq!(level(&shadow, "A"), Some(MAX_LEVEL));
}

#[test]
fn nothing_to_set() {
    let mut s = snapshot(40, 20);
    s.groups.push(Group {
        id: "E".to_string(),
        name: "Empty".to_string(),
        muted: false,
        members: vec!["ghost".to_string()],
    });
    let mut shadow = ShadowVolumes::new();
    assert!(set_volume((50 * P) as i64, &None, &mut shadow, &s).is_empty());
    assert!(set_volume((50 * P) as i64, &focus("E"), &mut shadow, &s).is_empty());
    assert!(set_volume((50 * P) as i64, &focus("nope"), &mut shadow, &s).is_empty());
    assert!(set_volume_delta(P as i64, &focus("E"), &mut shadow, &s).is_empty());
    assert!(set_volume_delta(P as i64, &None, &mut shadow, &s).is_empty());
    assert_eq!(level(&shadow, "A"), None);
}

#[test]
fn relative_change_moves_the_loudest() {
    let s = snapshot(40, 20);
    let mut shadow = ShadowVolumes::new();
    let cmds = set_volume_delta((5 * P) as i64, &focus("G"), &mut shadow, &s);
    assert_eq!(
        sent(&cmds),
        vec![("A".to_string(), 45, false), ("B".to_string(), 23, true)]
    );
    assert_eq!(level(&shadow, "A"), Some(45 * P));
    assert_eq!(level(&shadow, "B"), Some(22_500_000));
    let cmds = set_volume_delta(-(P as i64), &focus("B"), &mut shadow, &s);
    assert_eq!(sent(&cmds), vec![("B".to_string(), 22, true)]);
    assert_eq!(level(&shadow, "B"), Some(21_500_000));
}

#[test]
fn relative_change_is_clamped() {
    let s = snapshot(98, 20);
    let mut shadow = ShadowVolumes::new();
    let cmds = set_volume_delta((5 * P) as i64, &focus("A"), &mut shadow, &s);
    assert_eq!(sent(&cmds), vec![("A".to_string(), 100, false)]);
    let cmds = set_volume_delta(-(50 * P as i64), &focus("B"), &mut shadow, &s);
    assert_eq!(sent(&cmds), vec![("B".to_string(), 0, true)]);
}

#[test]
fn reconcile_overrides_drift() {
    let s = snapshot(40, 20);
    let mut shadow = ShadowVolumes::new();
    shadow.set(&"A".to_string(), 40_400_000);
    shadow.set(&"B".to_string(), 27 * P);
    shadow.set(&"old".to_string(), 5 * P);
    reconcile(&mut shadow, &s);
    assert_eq!(level(&shadow, "A"), Some(40_400_000));
    assert_eq!(level(&shadow, "B"), Some(20 * P));
    assert_eq!(level(&shadow, "old"), Some(5 * P));
}

#[test]
fn reconcile_fills_missing_entries() {
    let s = snapshot(0, 55);
    let mut shadow = ShadowVolumes::new();
    reconcile(&mut shadow, &s);
    assert_eq!(level(&shadow, "A"), Some(0));
    assert_eq!(level(&shadow, "B"), Some(55 * P));
}

#[test]
fn rounding_halves_up() {
    assert_eq!(round_level(0), 0);
    assert_eq!(round_level(1_499_999), 1);
    assert_eq!(round_level(1_500_000), 2);
    assert_eq!(round_level(MAX_LEVEL), 100);
}
