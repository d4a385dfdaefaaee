use neutron_router::geom::{sq_dist, Pt};
use neutron_router::index::SpatialIndex;
use neutron_router::route::{find_bridge_general, greedy_fast_route, LIMIT_CEILING};
use neutron_router::store::{StarKind, Store};

fn pt(x: i64, y: i64, z: i64) -> Pt {
    Pt { x, y, z }
}

/// One fixed-point light-year.
const LY: i64 = 1024;

fn store_of(entries: &[(i64, i64, i64, StarKind, &str)]) -> Store {
    Store {
        coords: entries.iter().map(|e| pt(e.0, e.1, e.2)).collect(),
        names: entries.iter().map(|e| e.4.to_string()).collect(),
        kinds: entries.iter().map(|e| e.3).collect(),
    }
}

/// Three neutron stars on a line at 0, 50 and 100 light-years, and one
/// general star at 25 light-years.
fn line_store() -> Store {
    store_of(&[
        (0, 0, 0, StarKind::Neutron, "start"),
        (50 * LY, 0, 0, StarKind::Neutron, "middle"),
        (100 * LY, 0, 0, StarKind::Neutron, "goal"),
        (25 * LY, 0, 0, StarKind::General, "bridge"),
    ])
}

#[test]
fn sq_dist_exact() {
    assert_eq!(sq_dist(&pt(0, 0, 0), &pt(3, 4, 0)), 25);
    assert_eq!(sq_dist(&pt(-1, -2, -3), &pt(1, 2, 3)), 4 + 16 + 36);
    assert_eq!(sq_dist(&pt(7, 7, 7), &pt(7, 7, 7)), 0);
}

#[test]
fn index_only_sees_its_category() {
    let store = line_store();
    let neutron = SpatialIndex::build(&store, StarKind::Neutron);
    let general = SpatialIndex::build(&store, StarKind::General);
    // Everything is within 100 ly of the start.
    let big = (100 * LY as u64) * (100 * LY as u64);
    let near_start = neutron.query(&pt(0, 0, 0), big, &store);
    assert_eq!(near_start, vec![
        (0usize, 0u64),
        (1, (50 * LY as u64) * (50 * LY as u64)),
        (2, (100 * LY as u64) * (100 * LY as u64)),
    ]);
    let generals = general.query(&pt(0, 0, 0), big, &store);
    assert_eq!(generals, vec![(3usize, (25 * LY as u64) * (25 * LY as u64))]);
}

#[test]
fn index_radius_is_a_closed_ball() {
    let store = line_store();
    let neutron = SpatialIndex::build(&store, StarKind::Neutron);
    let r = (50 * LY as u64) * (50 * LY as u64);
    let within = neutron.query(&pt(0, 0, 0), r, &store);
    // The boundary point at exactly 50 ly is included.
    assert_eq!(within, vec![(0usize, 0u64), (1, r)]);
}

#[test]
fn bridge_rejected_below_required_limit() {
    // At limit 10 ly the bridge needs leg base 25 ly, so the hop 0 -> 1 has
    // no bridge; it first appears at limit 25 ly.
    let store = line_store();
    let general = SpatialIndex::build(&store, StarKind::General);
    assert!(find_bridge_general(0, 1, &store, &general, 10 * LY as u64).is_none());
    assert!(find_bridge_general(0, 1, &store, &general, 24 * LY as u64).is_none());
    let d = 25 * LY as u64;
    assert_eq!(
        find_bridge_general(0, 1, &store, &general, 25 * LY as u64),
        Some((3, 36 * d * d))
    );
}

#[test]
fn bridge_picks_minimal_key() {
    // Two generals can bridge 0 -> 1; the one nearer the midpoint needs the
    // smaller key and wins.
    let store = store_of(&[
        (0, 0, 0, StarKind::Neutron, "s"),
        (50 * LY, 0, 0, StarKind::Neutron, "d"),
        (40 * LY, 0, 0, StarKind::General, "near"),
        (20 * LY, 0, 0, StarKind::General, "far"),
    ]);
    let general = SpatialIndex::build(&store, StarKind::General);
    let r = find_bridge_general(0, 1, &store, &general, 30 * LY as u64).unwrap();
    let d10 = 10 * LY as u64;
    assert_eq!(r, (2, 36 * d10 * d10));
}

#[test]
fn escalation_scenario_route() {
    // Base limit 10 ly: hop 0 -> 1 becomes bridgeable at 25 ly, and the
    // final hop 1 -> 2 only at 75 ly, so the route requires a 75 ly base
    // range: key 36 * (75 ly)^2.
    let store = line_store();
    let neutron = SpatialIndex::build(&store, StarKind::Neutron);
    let general = SpatialIndex::build(&store, StarKind::General);
    let rt = greedy_fast_route(0, 2, &store, &neutron, &general, 10 * LY as u64).unwrap();
    assert_eq!(rt.hops, vec![0, 1, 2]);
    assert_eq!(rt.bridges, vec![3, 3]);
    let d75 = 75 * LY as u64;
    assert_eq!(rt.required_key, 36 * d75 * d75);
    assert_eq!(rt.jumps, 4);
}

#[test]
fn trivial_route_when_start_is_goal() {
    let store = line_store();
    let neutron = SpatialIndex::build(&store, StarKind::Neutron);
    let general = SpatialIndex::build(&store, StarKind::General);
    let rt = greedy_fast_route(1, 1, &store, &neutron, &general, 10 * LY as u64).unwrap();
    assert_eq!(rt.bridges.len(), 0);
    assert_eq!(rt.hops, vec![1]);
    assert_eq!(rt.required_key, 0);
    assert_eq!(rt.jumps, 0);
}

#[test]
fn exhaustion_terminates_without_route() {
    // No general star at all: no hop can ever be bridged, and the router
    // must escalate to the ceiling and report failure rather than loop.
    let store = store_of(&[
        (0, 0, 0, StarKind::Neutron, "a"),
        (10 * LY, 0, 0, StarKind::Neutron, "b"),
    ]);
    let neutron = SpatialIndex::build(&store, StarKind::Neutron);
    let general = SpatialIndex::build(&store, StarKind::General);
    assert!(greedy_fast_route(0, 1, &store, &neutron, &general, LIMIT_CEILING).is_none());
    assert!(greedy_fast_route(0, 1, &store, &neutron, &general, 1).is_none());
}

#[test]
fn route_progress_is_monotonic() {
    // A decoy neutron star farther from the goal than the start must never
    // appear among the hops.
    let store = store_of(&[
        (0, 0, 0, StarKind::Neutron, "s"),
        (-30 * LY, 0, 0, StarKind::Neutron, "decoy"),
        (40 * LY, 0, 0, StarKind::Neutron, "g"),
        (20 * LY, 0, 0, StarKind::General, "mid"),
        (-15 * LY, 0, 0, StarKind::General, "decoy mid"),
    ]);
    let neutron = SpatialIndex::build(&store, StarKind::Neutron);
    let general = SpatialIndex::build(&store, StarKind::General);
    let rt = greedy_fast_route(0, 2, &store, &neutron, &general, 20 * LY as u64).unwrap();
    let goal = store.coords[2];
    let mut last = sq_dist(&store.coords[0], &goal);
    for w in 1..rt.hops.len() {
        let d = sq_dist(&store.coords[rt.hops[w]], &goal);
        assert!(d < last);
        last = d;
    }
    assert!(!rt.hops.contains(&1));
}
