use dan_core_n::links::composition_order;
use std::collections::HashMap;

#[test]
fn order_names_every_link_once() {
    let mut parents = HashMap::new();
    let mut depths = HashMap::new();
    for child in 1..40i128 {
        parents.insert(child, child / 2);
        depths.insert(child, (child % 7) as i16);
    }
    let order = composition_order(&parents, &depths);
    assert_eq!(order.len(), 39);
    let mut seen: Vec<i128> = order.iter().map(|link| link.0).collect();
    seen.sort();
    assert_eq!(seen, (1..40).collect::<Vec<i128>>());
    for (child, parent) in &order {
        assert_eq!(parents[child], *parent);
    }
}

#[test]
fn shallower_children_come_first() {
    let mut parents = HashMap::new();
    let mut depths = HashMap::new();
    let given = [(10, 3), (11, 1), (12, 2), (13, 1), (14, 0), (15, 5), (16, -2)];
    for (child, depth) in given {
        parents.insert(child as i128, 1i128);
        depths.insert(child as i128, depth as i16);
    }
    let order = composition_order(&parents, &depths);
    let found: Vec<i16> = order.iter().map(|link| depths[&link.0]).collect();
    assert_eq!(found, vec![-2, 0, 1, 1, 2, 3, 5]);
    assert_eq!(order[0], (16, 1));
    assert_eq!(order[6], (15, 1));
}

#[test]
fn a_child_without_depth_counts_as_a_root() {
    let mut parents = HashMap::new();
    let mut depths = HashMap::new();
    parents.insert(1i128, 9i128);
    parents.insert(2, 9);
    parents.insert(3, 9);
    depths.insert(1, 1i16);
    depths.insert(3, -1);
    let order = composition_order(&parents, &depths);
    assert_eq!(order, vec![(3, 9), (2, 9), (1, 9)]);
}

#[test]
fn no_links_no_order() {
    let order = composition_order(&HashMap::new(), &HashMap::new());
    assert!(order.is_empty());
}

#[test]
fn extreme_depths_keep_their_order() {
    let mut parents = HashMap::new();
    let mut depths = HashMap::new();
    parents.insert(1i128, 0i128);
    parents.insert(2, 0);
    parents.insert(3, 0);
    depths.insert(1, i16::MAX);
    depths.insert(2, i16::MIN);
    depths.insert(3, 0);
    let order = composition_order(&parents, &depths);
    assert_eq!(order, vec![(2, 0), (3, 0), (1, 0)]);
}
