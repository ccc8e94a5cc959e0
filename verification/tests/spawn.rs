use dan_core_n::column_set::{ColumnSet, StandardDataColumns};
use dan_core_n::lanes::{LaneWidths, MAX_LANES};
use dan_core_n::names::{same_name, same_signature};
use dan_core_n::numeric::{Mat4, Quat, Scalar};
use dan_core_n::spawn::{DanmakuSpawnData, UNRESOLVED};
use std::collections::HashMap;

fn plain(family_depth: i16, parent: Option<i128>, children: Vec<DanmakuSpawnData>) -> DanmakuSpawnData {
    DanmakuSpawnData {
        end_time: 1,
        behavior_data: Vec::new(),
        render_properties: Vec::new(),
        behaviors: Vec::new(),
        next_stage_add_data: ColumnSet::empty(),
        next_stage: Vec::new(),
        parent,
        children,
        family_depth,
    }
}

#[test]
fn settled_depth_stays() {
    let mut d = plain(4, Some(7), vec![plain(UNRESOLVED, None, vec![])]);
    assert!(d.set_family_depth(&HashMap::new()));
    assert_eq!(d.family_depth, 4);
    assert_eq!(d.children[0].family_depth, UNRESOLVED);
    let mut odd = plain(-5, None, vec![]);
    assert!(odd.set_family_depth(&HashMap::new()));
    assert_eq!(odd.family_depth, -5);
}

#[test]
fn root_gets_depth_zero() {
    let mut d = plain(UNRESOLVED, None, vec![plain(UNRESOLVED, None, vec![])]);
    assert!(d.set_family_depth(&HashMap::new()));
    assert_eq!(d.family_depth, 0);
    assert_eq!(d.children[0].family_depth, UNRESOLVED);
}

#[test]
fn parent_on_record_puts_the_child_one_deeper_and_stamps_on() {
    let mut depths = HashMap::new();
    depths.insert(7i128, 2i16);
    let mut d = plain(
        UNRESOLVED,
        Some(7),
        vec![
            plain(UNRESOLVED, None, vec![plain(9, None, vec![])]),
            plain(0, None, vec![]),
        ],
    );
    assert!(d.can_settle(&depths));
    assert!(d.set_family_depth(&depths));
    assert_eq!(d.family_depth, 3);
    assert_eq!(d.children[0].family_depth, 4);
    assert_eq!(d.children[0].children[0].family_depth, 5);
    assert_eq!(d.children[1].family_depth, 4);
    assert_eq!(d.parent, Some(7));
    assert_eq!(depths.len(), 1);
    assert_eq!(depths[&7], 2);
}

#[test]
fn parent_at_depth_zero_gives_depth_one() {
    let mut depths = HashMap::new();
    depths.insert(1i128, 0i16);
    let mut d = plain(UNRESOLVED, Some(1), vec![]);
    assert!(d.set_family_depth(&depths));
    assert_eq!(d.family_depth, 1);
}

#[test]
fn parent_not_on_record_defers() {
    let mut depths = HashMap::new();
    depths.insert(7i128, 2i16);
    let mut d = plain(UNRESOLVED, Some(8), vec![plain(5, None, vec![])]);
    assert!(!d.can_settle(&depths));
    assert!(!d.set_family_depth(&depths));
    assert_eq!(d.family_depth, UNRESOLVED);
    assert_eq!(d.children[0].family_depth, 5);
}

#[test]
fn depth_beyond_the_greatest_cannot_be_settled() {
    let mut depths = HashMap::new();
    depths.insert(1i128, i16::MAX);
    depths.insert(2i128, i16::MAX - 1);
    depths.insert(3i128, i16::MAX - 2);
    let leaf = plain(UNRESOLVED, Some(1), vec![]);
    assert!(!leaf.can_settle(&depths));
    let mut last = plain(UNRESOLVED, Some(2), vec![]);
    assert!(last.can_settle(&depths));
    assert!(last.set_family_depth(&depths));
    assert_eq!(last.family_depth, i16::MAX);
    let deep = plain(UNRESOLVED, Some(2), vec![plain(0, None, vec![])]);
    assert!(!deep.can_settle(&depths));
    let fits = plain(UNRESOLVED, Some(3), vec![plain(0, None, vec![])]);
    assert!(fits.can_settle(&depths));
    let too_deep = plain(UNRESOLVED, Some(3), vec![plain(0, None, vec![plain(0, None, vec![])])]);
    assert!(!too_deep.can_settle(&depths));
}

#[test]
fn update_children_depth_counts_from_the_holder() {
    let mut d = plain(10, None, vec![plain(0, None, vec![plain(0, None, vec![])])]);
    d.update_children_depth();
    assert_eq!(d.family_depth, 10);
    assert_eq!(d.children[0].family_depth, 11);
    assert_eq!(d.children[0].children[0].family_depth, 12);
}

#[test]
fn height_is_the_number_of_generations_below() {
    let leaf = plain(0, None, vec![]);
    assert!(leaf.height_within(0));
    let two = plain(0, None, vec![plain(0, None, vec![]), plain(0, None, vec![plain(0, None, vec![])])]);
    assert!(!two.height_within(0));
    assert!(!two.height_within(1));
    assert!(two.height_within(2));
    assert!(two.height_within(u16::MAX));
}

#[test]
fn column_sets_hold_what_was_put_in() {
    let empty = ColumnSet::empty();
    assert!(!empty.contains(StandardDataColumns::PosX));
    let some = ColumnSet::only(StandardDataColumns::PosX).with(StandardDataColumns::Forward);
    assert!(some.contains(StandardDataColumns::PosX));
    assert!(some.contains(StandardDataColumns::Forward));
    assert!(!some.contains(StandardDataColumns::PosY));
    let other = ColumnSet::only(StandardDataColumns::PosY).with(StandardDataColumns::Forward);
    let both = some.union(other);
    assert!(both.contains(StandardDataColumns::PosX));
    assert!(both.contains(StandardDataColumns::PosY));
    assert!(both.contains(StandardDataColumns::Forward));
    assert!(!both.contains(StandardDataColumns::Rotation));
    let common = some.intersection(other);
    assert!(common.contains(StandardDataColumns::Forward));
    assert!(!common.contains(StandardDataColumns::PosX));
    assert!(!common.contains(StandardDataColumns::PosY));
    assert_eq!(StandardDataColumns::PosX.ordinal(), 0);
    assert_eq!(StandardDataColumns::Forward.ordinal(), 19);
}

#[test]
fn lane_widths_fall_back_to_one_lane() {
    assert_eq!(LaneWidths::lanes(None), 1);
    assert_eq!(LaneWidths::lanes(Some(0)), 1);
    assert_eq!(LaneWidths::lanes(Some(8)), 8);
    assert_eq!(LaneWidths::lanes(Some(MAX_LANES)), MAX_LANES);
    assert_eq!(LaneWidths::lanes(Some(MAX_LANES + 1)), 1);
    assert_eq!(LaneWidths::single(), LaneWidths { scalar: 1, color: 1, ticks: 1 });
    assert_eq!(
        LaneWidths::new(Some(4), None, Some(16)),
        LaneWidths { scalar: 4, color: 1, ticks: 16 }
    );
}

#[test]
fn target_widths_are_laid_out() {
    let widths = LaneWidths::for_target(Some(8));
    assert_eq!(widths.scalar, 8);
    assert!(1 <= widths.color && widths.color <= MAX_LANES);
    assert!(1 <= widths.ticks && widths.ticks <= MAX_LANES);
    assert_eq!(LaneWidths::for_target(None).scalar, 1);
}

#[test]
fn names_are_compared_by_what_they_spell() {
    assert!(same_name("motion1", "motion1"));
    assert!(!same_name("motion1", "motion3"));
    assert!(!same_name("motion1", "motion"));
    assert!(same_name("", ""));
    assert!(same_name("größe", "größe"));
    assert!(!same_name("größe", "grösse"));
    let owned = String::from("motion") + "1";
    assert!(same_name(&owned, "motion1"));
    assert!(same_signature(&vec!["a", "b"], &vec!["a", "b"]));
    assert!(!same_signature(&vec!["a", "b"], &vec!["b", "a"]));
    assert!(!same_signature(&vec!["a", "b"], &vec!["a"]));
    assert!(same_signature(&vec![], &vec![]));
}

#[test]
fn fills_are_zero_one_and_identity() {
    assert_eq!(Scalar::zero().to_bits(), 0.0f32.to_bits());
    assert_eq!(Scalar::one().to_bits(), 1.0f32.to_bits());
    assert_eq!(Scalar::from_bits(0x4049_0FDB).to_bits(), 0x4049_0FDB);
    let q = Quat::identity();
    assert_eq!((q.x, q.y, q.z, q.w), (Scalar::zero(), Scalar::zero(), Scalar::zero(), Scalar::one()));
    let m = Mat4::identity();
    for (k, entry) in m.m.iter().enumerate() {
        let expected = if k % 5 == 0 { 1.0f32 } else { 0.0f32 };
        assert_eq!(f32::from_bits(entry.to_bits()), expected);
        assert!(!f32::from_bits(entry.to_bits()).is_nan());
    }
}
