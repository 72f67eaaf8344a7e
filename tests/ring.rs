use umaring::{
    time_since, HealthStatus, Member, Ring, RingError, RingSource, ScriptParams, TimeUnit,
};

fn member(id: &str) -> Member {
    Member {
        id: id.to_string(),
        name: format!("Site {}", id),
        url: format!("https://{}.example", id),
    }
}

fn ring_of(ids: &[&str]) -> Ring {
    Ring::new(RingSource { users: ids.iter().map(|i| member(i)).collect() })
}

fn order_ids(ring: &Ring) -> Vec<String> {
    ring.all_with_health().iter().map(|(m, _)| m.id.clone()).collect()
}

/// An epoch whose ordering of `ids` is `wanted`.
fn epoch_with_order(ring: &mut Ring, wanted: &[&str]) -> u64 {
    for epoch in 0..10_000u64 {
        ring.reshuffle(epoch);
        if order_ids(ring) == wanted {
            return epoch;
        }
    }
    panic!("no epoch gives the wanted order");
}

#[test]
fn new_ring_members_unchecked() {
    let ring = ring_of(&["a", "b", "c"]);
    assert_eq!(ring.len(), 3);
    for (_, h) in ring.all_with_health() {
        assert_eq!(h.status, HealthStatus::Unknown);
        assert_eq!(h.last_checked, None);
    }
    assert_eq!(ring.iter().len(), 3);
}

#[test]
fn ordering_is_a_bijection() {
    let ids = ["a", "b", "c", "d", "e", "f", "g"];
    let mut ring = ring_of(&ids);
    for epoch in [0u64, 1, 2, 2900, 123456] {
        ring.reshuffle(epoch);
        let mut seen = order_ids(&ring);
        assert_eq!(seen.len(), ids.len());
        seen.sort();
        assert_eq!(seen, ids.iter().map(|s| s.to_string()).collect::<Vec<_>>());
    }
}

#[test]
fn same_epoch_same_ordering() {
    let mut a = ring_of(&["a", "b", "c", "d", "e"]);
    let mut b = ring_of(&["a", "b", "c", "d", "e"]);
    a.reshuffle(2900);
    b.reshuffle(2900);
    assert_eq!(order_ids(&a), order_ids(&b));
}

#[test]
fn reshuffle_moves_members() {
    // Some epoch must order five members otherwise than listed.
    let mut ring = ring_of(&["a", "b", "c", "d", "e"]);
    let listed: Vec<String> = ["a", "b", "c", "d", "e"].iter().map(|s| s.to_string()).collect();
    let moved = (0..20u64).any(|e| {
        ring.reshuffle(e);
        order_ids(&ring) != listed
    });
    assert!(moved);
}

#[test]
fn get_finds_any_member() {
    let mut ring = ring_of(&["a", "b"]);
    ring.set_health_at("b", HealthStatus::UnhealthyDown, 10);
    assert_eq!(ring.get("b").map(|m| m.url.clone()), Some("https://b.example".to_string()));
    assert!(ring.get("zzz").is_none());
}

#[test]
fn neighbors_unknown_id_not_found() {
    let ring = ring_of(&["a", "b"]);
    assert_eq!(ring.neighbors("nobody").err(), Some(RingError::NotFound));
}

#[test]
fn neighbors_scenario_three_members() {
    let mut ring = ring_of(&["A", "B", "C"]);
    epoch_with_order(&mut ring, &["C", "A", "B"]);
    ring.set_health_at("B", HealthStatus::UnhealthyDown, 100);
    let (p, n) = ring.neighbors("A").unwrap();
    assert_eq!((p.id.as_str(), n.id.as_str()), ("C", "C"));
    let (p, n) = ring.neighbors("B").unwrap();
    assert_eq!((p.id.as_str(), n.id.as_str()), ("A", "C"));
    let (p, n) = ring.neighbors("C").unwrap();
    assert_eq!((p.id.as_str(), n.id.as_str()), ("A", "A"));
}

#[test]
fn healthy_neighbors_form_one_cycle() {
    let ids = ["a", "b", "c", "d", "e"];
    let mut ring = ring_of(&ids);
    ring.reshuffle(7);
    ring.set_health_at("c", HealthStatus::UnhealthyMissing, 1);
    let healthy: Vec<String> = ring.iter().iter().map(|m| m.id.clone()).collect();
    assert_eq!(healthy.len(), 4);
    let start = healthy[0].clone();
    let mut at = start.clone();
    let mut visited = Vec::new();
    for _ in 0..healthy.len() {
        let (p, n) = ring.neighbors(&at).unwrap();
        assert_ne!(p.id, at);
        assert_ne!(n.id, at);
        assert_ne!(p.id, n.id);
        assert_eq!(ring.neighbors(&n.id).unwrap().0.id, at);
        visited.push(at.clone());
        at = n.id.clone();
    }
    assert_eq!(at, start);
    assert_eq!(visited, healthy);
}

#[test]
fn two_healthy_members_are_each_others_neighbors() {
    let mut ring = ring_of(&["a", "b", "c"]);
    ring.set_health_at("c", HealthStatus::UnhealthyDown, 1);
    let (p, n) = ring.neighbors("a").unwrap();
    assert_eq!((p.id.as_str(), n.id.as_str()), ("b", "b"));
}

#[test]
fn unhealthy_member_scans_outward() {
    let mut ring = ring_of(&["a", "b", "c", "d", "e"]);
    ring.reshuffle(3);
    let order = order_ids(&ring);
    // Mark the member at ring position 2 and its two neighbours unhealthy.
    for k in [1usize, 2, 3] {
        ring.set_health_at(&order[k], HealthStatus::UnhealthyDown, 5);
    }
    let (p, n) = ring.neighbors(&order[2]).unwrap();
    assert_eq!(p.id, order[0]);
    assert_eq!(n.id, order[4]);
    let (p, n) = ring.neighbors(&order[1]).unwrap();
    assert_eq!(p.id, order[0]);
    assert_eq!(n.id, order[4]);
}

#[test]
fn no_healthy_members_no_neighbors() {
    let mut ring = ring_of(&["a", "b", "c"]);
    for id in ["a", "b", "c"] {
        ring.set_health_at(id, HealthStatus::UnhealthyMissing, 9);
    }
    for id in ["a", "b", "c"] {
        assert_eq!(ring.neighbors(id).err(), Some(RingError::NoNeighbors));
    }
    assert!(ring.iter().is_empty());
    assert_eq!(ring.neighbors("x").err(), Some(RingError::NotFound));
}

#[test]
fn empty_ring() {
    let ring = ring_of(&[]);
    assert_eq!(ring.len(), 0);
    assert!(ring.iter().is_empty());
    assert_eq!(ring.neighbors("a").err(), Some(RingError::NotFound));
}

#[test]
fn single_member_is_its_own_neighbor() {
    let ring = ring_of(&["solo"]);
    let (p, n) = ring.neighbors("solo").unwrap();
    assert_eq!((p.id.as_str(), n.id.as_str()), ("solo", "solo"));
}

#[test]
fn check_cursor_round_robin() {
    let mut ring = ring_of(&["a", "b", "c", "d"]);
    let mut seen = Vec::new();
    for _ in 0..8 {
        seen.push(ring.next_member_to_check().id.clone());
    }
    assert_eq!(seen, vec!["a", "b", "c", "d", "a", "b", "c", "d"]);
}

#[test]
fn set_health_round_trip() {
    let mut ring = ring_of(&["a", "b", "c"]);
    ring.set_health_at("b", HealthStatus::HealthyRedirectLinks, 1234);
    let entry = ring
        .all_with_health()
        .into_iter()
        .find(|(m, _)| m.id == "b")
        .map(|(_, h)| *h)
        .unwrap();
    assert_eq!(entry.status, HealthStatus::HealthyRedirectLinks);
    assert_eq!(entry.last_checked, Some(1234));
    let others: Vec<_> = ring.all_with_health().into_iter().filter(|(m, _)| m.id != "b").collect();
    assert!(others.iter().all(|(_, h)| h.status == HealthStatus::Unknown));
}

#[test]
fn set_health_stamps_clock_time() {
    let before = std::time::SystemTime::now()
        .duration_since(std::time::UNIX_EPOCH)
        .unwrap()
        .as_secs();
    let mut ring = ring_of(&["a"]);
    ring.set_health("a", HealthStatus::UnhealthyDown);
    let (_, h) = ring.all_with_health()[0];
    assert_eq!(h.status, HealthStatus::UnhealthyDown);
    assert!(h.last_checked.unwrap() >= before);
}

#[test]
fn set_health_unknown_id_changes_nothing() {
    let mut ring = ring_of(&["a"]);
    ring.set_health_at("zzz", HealthStatus::UnhealthyDown, 5);
    assert_eq!(ring.all_with_health()[0].1.status, HealthStatus::Unknown);
}

#[test]
fn counts_and_groups() {
    let mut ring = ring_of(&["a", "b", "c", "d"]);
    ring.set_health_at("a", HealthStatus::UnhealthyDown, 1);
    ring.set_health_at("c", HealthStatus::HealthyStatic, 1);
    assert_eq!(ring.health_counts(), (3, 1));
    let down: Vec<&str> = ring
        .members_with_status(HealthStatus::UnhealthyDown)
        .iter()
        .map(|m| m.id.as_str())
        .collect();
    assert_eq!(down, vec!["a"]);
    assert_eq!(ring.members_with_status(HealthStatus::Unknown).len(), 2);
}

#[test]
fn scan_targets_in_ring_order() {
    let ring = ring_of(&["a", "b", "c"]);
    let targets = ring.scan_targets();
    let order = order_ids(&ring);
    assert_eq!(targets.len(), 3);
    for (k, (id, url)) in targets.iter().enumerate() {
        assert_eq!(id, &order[k]);
        assert_eq!(url, &format!("https://{}.example", id));
    }
}

#[test]
fn status_health_and_descriptions() {
    assert!(HealthStatus::Unknown.is_healthy());
    assert!(HealthStatus::HealthyJsOther.is_healthy());
    assert!(!HealthStatus::UnhealthyDown.is_healthy());
    assert!(!HealthStatus::UnhealthyMissing.is_healthy());
    assert_eq!(HealthStatus::Unknown.description(), "Not yet scanned");
    assert_eq!(
        HealthStatus::UnhealthyMissing.description(),
        "Site is up but no umaring integration found"
    );
}

#[test]
fn elapsed_time_buckets() {
    assert_eq!(time_since(100, 159), (59, TimeUnit::Seconds));
    assert_eq!(time_since(100, 160), (1, TimeUnit::Minutes));
    assert_eq!(time_since(0, 3599), (59, TimeUnit::Minutes));
    assert_eq!(time_since(0, 7300), (2, TimeUnit::Hours));
    assert_eq!(time_since(50, 10), (0, TimeUnit::Seconds));
}

#[test]
fn script_mode_defaults_to_base() {
    let p = ScriptParams { id: "a".to_string(), mode: None };
    assert_eq!(p.mode_or_base(), "base");
    let p = ScriptParams { id: "a".to_string(), mode: Some("dark".to_string()) };
    assert_eq!(p.mode_or_base(), "dark");
}
