use hypercalibrate::calibration::{
    calibration_to_ui_points, default_next_id, reset_calibration, update_calibration_point, Calibration,
    EdgePoint, PointType, Updated,
};

type Place = (f64, f64);

const CORNERS: [Place; 4] = [(0.1, 0.1), (0.9, 0.1), (0.9, 0.9), (0.1, 0.9)];

/// Position along an edge as a key: the projection on the edge, in [0, 1],
/// by its bits, which grow with the number.
fn t_key(cal: &Calibration<Place>, edge: usize, p: Place) -> u64 {
    let (from, to) = match edge {
        0 => (cal.corners[0], cal.corners[1]),
        1 => (cal.corners[1], cal.corners[2]),
        2 => (cal.corners[2], cal.corners[3]),
        _ => (cal.corners[3], cal.corners[0]),
    };
    let (dx, dy) = (to.0 - from.0, to.1 - from.1);
    let len_sq = dx * dx + dy * dy;
    let t = if len_sq < 0.0001 { 0.5 } else { (((p.0 - from.0) * dx + (p.1 - from.1) * dy) / len_sq).clamp(0.0, 1.0) };
    (t + 0.0).to_bits()
}

fn add(cal: &mut Calibration<Place>, edge: usize, x: f64, y: f64) -> usize {
    let key = t_key(cal, edge, (x, y));
    cal.add_edge_point(edge, key, (x, y))
}

fn update(cal: &mut Calibration<Place>, id: usize, x: f64, y: f64) -> Updated {
    let place = (x, y);
    let key = match cal.edge_of(id) {
        Some(edge) => t_key(cal, edge, (x, y)),
        None => 0,
    };
    update_calibration_point(cal, id, key, place)
}

#[test]
fn test_ui_points_count() {
    let cal = Calibration::new(CORNERS);
    let points = calibration_to_ui_points(&cal);
    assert_eq!(points.len(), 4);
}

#[test]
fn test_update_corner() {
    let mut cal = Calibration::new(CORNERS);
    update(&mut cal, 0, 0.2, 0.3);
    assert_eq!(cal.corners[0].0, 0.2);
    assert_eq!(cal.corners[0].1, 0.3);
}

#[test]
fn test_add_edge_point() {
    let mut cal = Calibration::new(CORNERS);
    let id = add(&mut cal, 0, 0.5, 0.1);
    assert!(id >= 100);
    assert_eq!(cal.edge_points.len(), 1);

    let points = calibration_to_ui_points(&cal);
    assert_eq!(points.len(), 5);
}

#[test]
fn test_remove_edge_point() {
    let mut cal = Calibration::new(CORNERS);
    let id = add(&mut cal, 0, 0.5, 0.1);
    assert_eq!(cal.edge_points.len(), 1);

    cal.remove_edge_point(id);
    assert_eq!(cal.edge_points.len(), 0);
}

#[test]
fn test_default_calibration() {
    let cal = Calibration::new(CORNERS);
    assert_eq!(cal.corners.len(), 4);
    assert_eq!(cal.edge_points.len(), 0);
    assert!(cal.enabled);
    assert_eq!(cal.next_edge_point_id, 100);
    assert_eq!(default_next_id(), 100);
    assert!(cal.is_well_formed());
}

#[test]
fn points_are_sorted_by_edge_and_position() {
    let mut cal = Calibration::new(CORNERS);
    let a = add(&mut cal, 2, 0.5, 0.9);
    let b = add(&mut cal, 0, 0.7, 0.1);
    let c = add(&mut cal, 0, 0.3, 0.1);
    let d = add(&mut cal, 1, 0.9, 0.5);
    let e = add(&mut cal, 0, 0.5, 0.1);
    assert_eq!((a, b, c, d, e), (100, 101, 102, 103, 104));
    let order: Vec<usize> = cal.edge_points.iter().map(|p| p.id).collect();
    assert_eq!(order, vec![c, e, b, d, a]);
    for pair in cal.edge_points.windows(2) {
        assert!((pair[0].edge, pair[0].t_key) <= (pair[1].edge, pair[1].t_key));
    }
    assert!(cal.is_well_formed());
}

#[test]
fn points_of_equal_rank_keep_their_order() {
    let mut cal = Calibration::new(CORNERS);
    let first = cal.add_edge_point(3, 7, (0.0, 0.0));
    let second = cal.add_edge_point(3, 7, (1.0, 1.0));
    let third = cal.add_edge_point(3, 6, (0.5, 0.5));
    let order: Vec<usize> = cal.edge_points.iter().map(|p| p.id).collect();
    assert_eq!(order, vec![third, first, second]);
}

#[test]
fn a_removed_identifier_is_not_given_out_again() {
    let mut cal = Calibration::new(CORNERS);
    let a = add(&mut cal, 0, 0.5, 0.1);
    let b = add(&mut cal, 1, 0.9, 0.5);
    assert!(cal.remove_edge_point(b));
    assert!(!cal.remove_edge_point(b));
    assert_eq!(cal.next_edge_point_id, 102);
    let c = add(&mut cal, 1, 0.9, 0.5);
    assert_eq!(c, 102);
    assert!(c != a && c != b);
    assert!(cal.is_well_formed());
}

#[test]
fn removing_takes_every_point_of_that_identifier() {
    let mut cal = Calibration {
        corners: CORNERS,
        edge_points: vec![
            EdgePoint::new(100, 0, 1, (0.0, 0.0)),
            EdgePoint::new(101, 0, 2, (0.0, 0.0)),
            EdgePoint::new(100, 1, 3, (0.0, 0.0)),
        ],
        next_edge_point_id: 102,
        enabled: true,
    };
    assert!(!cal.is_well_formed());
    assert!(cal.remove_edge_point(100));
    let left: Vec<usize> = cal.edge_points.iter().map(|p| p.id).collect();
    assert_eq!(left, vec![101]);
    assert!(cal.is_well_formed());
}

#[test]
fn a_moved_edge_point_takes_its_place_in_the_order() {
    let mut cal = Calibration::new(CORNERS);
    let a = add(&mut cal, 0, 0.3, 0.1);
    let b = add(&mut cal, 0, 0.7, 0.1);
    assert_eq!(update(&mut cal, a, 0.8, 0.1), Updated::Edge);
    // the points of the edge are still in ascending order of their position
    assert_eq!(cal.edge_points[0].id, b);
    assert!((f64::from_bits(cal.edge_points[0].t_key) - 0.75).abs() < 1e-9);
    assert_eq!(cal.edge_points[1].id, a);
    assert!((f64::from_bits(cal.edge_points[1].t_key) - 0.875).abs() < 1e-9);
    assert_eq!(cal.edge_points[1].place, (0.8, 0.1));
    assert_eq!(cal.edge_points[1].edge, 0);
    assert!(cal.is_well_formed());
    let sorted: Vec<usize> = cal.get_edge_points(0).iter().map(|p| p.id).collect();
    assert_eq!(sorted, vec![b, a]);
    assert!(cal.get_edge_points(2).is_empty());
}

#[test]
fn updates_keep_every_edge_in_order() {
    let mut cal = Calibration::new(CORNERS);
    let ids: Vec<usize> = (0..6).map(|k| cal.add_edge_point(k % 2, 10 * k as u64, (0.5, 0.5))).collect();
    let moves = [(ids[0], 45u64), (ids[5], 0), (ids[2], 45), (ids[3], 100), (ids[0], 1)];
    for (id, key) in moves {
        assert!(cal.update_edge_point(id, key, (0.25, 0.25)));
        for pair in cal.edge_points.windows(2) {
            assert!((pair[0].edge, pair[0].t_key) <= (pair[1].edge, pair[1].t_key));
        }
        assert_eq!(cal.edge_points.len(), 6);
        assert!(cal.is_well_formed());
    }
    // a point moved onto the key of another comes behind it
    let order: Vec<usize> = cal.edge_points.iter().filter(|p| p.t_key == 45).map(|p| p.id).collect();
    assert_eq!(order, vec![ids[2]]);
}

#[test]
fn restoring_the_order_of_points_from_outside() {
    let mut cal = Calibration {
        corners: CORNERS,
        edge_points: vec![
            EdgePoint::new(100, 1, 5, (0.0, 0.0)),
            EdgePoint::new(101, 0, 9, (0.0, 0.0)),
            EdgePoint::new(102, 0, 3, (0.0, 0.0)),
            EdgePoint::new(103, 1, 5, (1.0, 1.0)),
        ],
        next_edge_point_id: 104,
        enabled: false,
    };
    assert!(!cal.is_well_formed());
    cal.restore_order();
    let order: Vec<usize> = cal.edge_points.iter().map(|p| p.id).collect();
    assert_eq!(order, vec![102, 101, 100, 103]);
    assert!(cal.is_well_formed());
    assert!(!cal.enabled);
    assert_eq!(cal.next_edge_point_id, 104);
}

#[test]
fn an_unknown_identifier_changes_nothing() {
    let mut cal = Calibration::new(CORNERS);
    let a = add(&mut cal, 0, 0.3, 0.1);
    assert_eq!(update(&mut cal, 4, 0.5, 0.5), Updated::Nothing);
    assert_eq!(update(&mut cal, 999, 0.5, 0.5), Updated::Nothing);
    assert!(!cal.update_edge_point(999, 0, (0.0, 0.0)));
    assert_eq!(cal.corners, CORNERS);
    assert_eq!(cal.edge_points.len(), 1);
    assert_eq!(cal.edge_points[0].place, (0.3, 0.1));
    assert_eq!(cal.edge_of(a), Some(0));
    assert_eq!(cal.edge_of(999), None);
    assert_eq!(cal.find_edge_point(a), Some(0));
}

#[test]
fn every_corner_can_be_moved() {
    let mut cal = Calibration::new(CORNERS);
    for id in 0..4 {
        assert_eq!(update(&mut cal, id, 0.5, 0.25), Updated::Corner);
        assert_eq!(cal.corners[id], (0.5, 0.25));
        for other in 0..4 {
            if other > id {
                assert_eq!(cal.corners[other], CORNERS[other]);
            }
        }
    }
}

#[test]
fn ui_points_carry_labels_and_edges() {
    let mut cal = Calibration::new(CORNERS);
    for edge in [3, 2, 1, 0] {
        cal.add_edge_point(edge, 5, (0.5, 0.5));
    }
    let points = calibration_to_ui_points(&cal);
    let labels: Vec<&str> = points.iter().map(|p| p.label.as_str()).collect();
    assert_eq!(
        labels,
        vec![
            "Top Left",
            "Top Right",
            "Bottom Right",
            "Bottom Left",
            "Top Edge",
            "Right Edge",
            "Bottom Edge",
            "Left Edge"
        ]
    );
    for (k, p) in points.iter().take(4).enumerate() {
        assert_eq!((p.id, p.point_type, p.edge, p.place), (k, PointType::Corner, None, CORNERS[k]));
    }
    let edges: Vec<(usize, PointType, Option<usize>)> =
        points.iter().skip(4).map(|p| (p.id, p.point_type, p.edge)).collect();
    assert_eq!(
        edges,
        vec![
            (103, PointType::Edge, Some(0)),
            (102, PointType::Edge, Some(1)),
            (101, PointType::Edge, Some(2)),
            (100, PointType::Edge, Some(3)),
        ]
    );
}

#[test]
fn reset_restores_the_first_state() {
    let mut cal = Calibration::new([(0.0, 0.0); 4]);
    add(&mut cal, 0, 0.5, 0.0);
    cal.enabled = false;
    reset_calibration(&mut cal, CORNERS);
    assert_eq!(cal.corners, CORNERS);
    assert!(cal.edge_points.is_empty());
    assert_eq!(cal.next_edge_point_id, 100);
    assert!(cal.enabled);
}

#[test]
fn malformed_calibrations_are_told_apart() {
    let base = |points: Vec<EdgePoint<Place>>, next: usize| Calibration {
        corners: CORNERS,
        edge_points: points,
        next_edge_point_id: next,
        enabled: true,
    };
    assert!(base(vec![], 100).is_well_formed());
    assert!(!base(vec![], 99).is_well_formed());
    assert!(base(vec![EdgePoint::new(100, 3, 0, (0.0, 0.0))], 101).is_well_formed());
    assert!(!base(vec![EdgePoint::new(100, 4, 0, (0.0, 0.0))], 101).is_well_formed());
    assert!(!base(vec![EdgePoint::new(100, 0, 0, (0.0, 0.0))], 100).is_well_formed());
    assert!(!base(vec![EdgePoint::new(3, 0, 0, (0.0, 0.0))], 101).is_well_formed());
    assert!(!base(
        vec![EdgePoint::new(100, 0, 0, (0.0, 0.0)), EdgePoint::new(100, 1, 0, (0.0, 0.0))],
        101
    )
    .is_well_formed());
    // out of order on one edge
    assert!(!base(
        vec![EdgePoint::new(100, 2, 7, (0.0, 0.0)), EdgePoint::new(101, 2, 6, (0.0, 0.0))],
        102
    )
    .is_well_formed());
    // in order on each edge, the edges mixed
    assert!(base(
        vec![
            EdgePoint::new(100, 2, 7, (0.0, 0.0)),
            EdgePoint::new(101, 1, 6, (0.0, 0.0)),
            EdgePoint::new(102, 2, 7, (0.0, 0.0)),
        ],
        103
    )
    .is_well_formed());
}
