use dan_core_n::behavior::{Act, Behavior};
use dan_core_n::bucket::DanmakuBehaviorHandler;
use dan_core_n::color::ColorHex;
use dan_core_n::column_set::{ColumnSet, StandardDataColumns};
use dan_core_n::columns::{StandardColumns, NO_PARENT};
use dan_core_n::compose::compose_in_order;
use dan_core_n::fields::{ColorField, QuatField, ScalarField};
use dan_core_n::form::Form;
use dan_core_n::lanes::LaneWidths;
use dan_core_n::lanewise::{add_products, add_scalars, add_scalars_by_ticks, copy_scalars};
use dan_core_n::numeric::{Mat4, Numerics, Pose, Quat, Scalar, Unit3};
use dan_core_n::render::{compute_and_get_render_data, compute_transform_mats, RenderData};
use dan_core_n::spawn::{DanmakuSpawnData, StandardSpawnData, UNRESOLVED};
use dan_core_n::staging::{adjust, mandatory_end_act};
use dan_core_n::standard_behaviors::{mandatory_end, Standard, StandardAct};
use std::collections::HashMap;
use std::rc::Rc;

/// Arithmetic on the encodings themselves, as whole numbers: exact, and
/// sensitive to the order of the operands where the real operation is.
#[derive(Clone, Copy)]
struct Whole;

fn n(bits: u32) -> Scalar {
    Scalar::from_bits(bits)
}

fn q(x: u32, y: u32, z: u32, w: u32) -> Quat {
    Quat { x: n(x), y: n(y), z: n(z), w: n(w) }
}

impl Numerics for Whole {
    fn sum(&self, a: Scalar, b: Scalar) -> Scalar {
        n(a.to_bits() + b.to_bits())
    }

    fn product(&self, a: Scalar, b: Scalar) -> Scalar {
        n(a.to_bits() * b.to_bits())
    }

    fn of_ticks(&self, ticks: i16) -> Scalar {
        n(ticks as u32)
    }

    fn rotate(&self, a: Quat, b: Quat) -> Quat {
        q(
            10 * a.x.to_bits() + b.x.to_bits(),
            10 * a.y.to_bits() + b.y.to_bits(),
            10 * a.z.to_bits() + b.z.to_bits(),
            10 * a.w.to_bits() + b.w.to_bits(),
        )
    }

    fn turn(&self, by: Quat, v: Unit3) -> Unit3 {
        Unit3 {
            x: n(v.x.to_bits() + by.x.to_bits()),
            y: n(v.y.to_bits() + by.y.to_bits()),
            z: n(v.z.to_bits() + by.z.to_bits()),
        }
    }

    fn normalize(&self, x: Scalar, y: Scalar, z: Scalar) -> Unit3 {
        Unit3 { x: n(x.to_bits() + 1000), y: n(y.to_bits() + 1000), z: n(z.to_bits() + 1000) }
    }

    fn local_transform(&self, pose: Pose, partial_ticks: Scalar) -> Mat4 {
        let mut m = [n(0); 16];
        m[0] = pose.scale.x;
        m[1] = pose.old_scale.y;
        m[2] = pose.pos.x;
        m[3] = pose.old_pos.z;
        m[4] = pose.orientation.w;
        m[5] = pose.old_orientation.x;
        m[6] = partial_ticks;
        Mat4 { m }
    }

    fn compose(&self, parent: Mat4, child: Mat4) -> Mat4 {
        let mut m = [n(0); 16];
        for k in 0..16 {
            m[k] = n(10 * parent.m[k].to_bits() + child.m[k].to_bits());
        }
        Mat4 { m }
    }

    fn blend_color(&self, from: ColorHex, to: ColorHex, partial_ticks: Scalar) -> ColorHex {
        ColorHex(from.0 * 100 + to.0 * 10 + partial_ticks.to_bits() as i32)
    }
}

fn kinds(list: &[StandardDataColumns]) -> ColumnSet {
    let mut set = ColumnSet::empty();
    for kind in list {
        set = set.with(*kind);
    }
    set
}

fn descriptor(end_time: i16, behavior_data: Vec<StandardSpawnData>) -> DanmakuSpawnData {
    DanmakuSpawnData {
        end_time,
        behavior_data,
        render_properties: Vec::new(),
        behaviors: vec!["end"],
        next_stage_add_data: ColumnSet::empty(),
        next_stage: Vec::new(),
        parent: None,
        children: Vec::new(),
        family_depth: UNRESOLVED,
    }
}

fn store(required: &[StandardDataColumns]) -> StandardColumns {
    StandardColumns::new(128, kinds(required), LaneWidths::new(Some(4), Some(4), Some(8)))
}

#[test]
fn fresh_store_holds_the_fills() {
    let columns = store(&[
        StandardDataColumns::PosX,
        StandardDataColumns::Forward,
        StandardDataColumns::Orientation,
        StandardDataColumns::MainColor,
        StandardDataColumns::Appearance,
    ]);
    assert_eq!(columns.capacity(), 128);
    assert_eq!(columns.widths(), LaneWidths { scalar: 4, color: 4, ticks: 8 });
    assert_eq!(columns.current_dead_len(), 0);
    for i in [0usize, 1, 64, 127] {
        assert_eq!(columns.scalar(ScalarField::PosX, i), Scalar::zero());
        assert_eq!(columns.scalar(ScalarField::OldPosX, i), Scalar::zero());
        assert_eq!(columns.scalar(ScalarField::ForwardX, i), Scalar::one());
        assert_eq!(columns.scalar(ScalarField::ForwardY, i), Scalar::zero());
        assert_eq!(columns.scalar(ScalarField::ForwardZ, i), Scalar::zero());
        assert_eq!(columns.quat(QuatField::Orientation, i), Quat::identity());
        assert_eq!(columns.quat(QuatField::OldOrientation, i), Quat::identity());
        assert_eq!(columns.color(ColorField::Main, i), 0);
        assert_eq!(columns.color(ColorField::OldMain, i), 0);
        assert_eq!(columns.form(i).id(), "sphere");
        assert!(columns.render_properties(i).is_empty());
        assert_eq!(columns.ticks_existed(i), 0);
        assert_eq!(columns.end_time(i), 0);
        assert_eq!(columns.id(i), 0);
        assert!(!columns.dead(i));
        assert_eq!(columns.parent(i), NO_PARENT);
        assert_eq!(columns.parent(i), -1);
        assert_eq!(columns.family_depth(i), 0);
        assert_eq!(columns.transform(i).m, Mat4::identity().m);
        assert!(!columns.next_stage_add_data(i).contains(StandardDataColumns::PosX));
    }
}

#[test]
fn packed_columns_have_the_blocks_of_their_width() {
    let required = kinds(&[StandardDataColumns::PosX, StandardDataColumns::SecondaryColor]);
    for (scalar, color, ticks, capacity) in
        [(4usize, 8usize, 16usize, 128usize), (1, 1, 1, 128), (3, 5, 7, 130), (8, 4, 2, 1)]
    {
        let widths = LaneWidths::new(Some(scalar), Some(color), Some(ticks));
        let columns = StandardColumns::new(capacity, required, widths);
        assert_eq!(columns.scalar_blocks(ScalarField::PosX), capacity.div_ceil(scalar));
        assert_eq!(columns.scalar_blocks(ScalarField::OldPosX), capacity.div_ceil(scalar));
        assert_eq!(columns.scalar_blocks(ScalarField::PosY), 0);
        assert_eq!(columns.color_blocks(ColorField::Secondary), capacity.div_ceil(color));
        assert_eq!(columns.color_blocks(ColorField::OldSecondary), capacity.div_ceil(color));
        assert_eq!(columns.color_blocks(ColorField::Main), 0);
        assert_eq!(columns.tick_blocks(), capacity.div_ceil(ticks));
    }
}

#[test]
fn insertion_writes_what_is_allocated() {
    let mut columns = store(&[
        StandardDataColumns::PosX,
        StandardDataColumns::ScaleY,
        StandardDataColumns::Rotation,
        StandardDataColumns::Forward,
    ]);
    let mut d = descriptor(
        40,
        vec![
            StandardSpawnData::PosX(n(11)),
            StandardSpawnData::PosY(n(12)),
            StandardSpawnData::SizeY(n(13)),
            StandardSpawnData::MainColor(14),
            StandardSpawnData::Rotation(q(1, 2, 3, 4)),
            StandardSpawnData::Orientation(q(5, 6, 7, 8)),
            StandardSpawnData::Forward(Unit3 { x: n(21), y: n(22), z: n(23) }),
            StandardSpawnData::Appearance { form: Form { id: "star" } },
            StandardSpawnData::Damage(n(30)),
            StandardSpawnData::PosX(n(99)),
        ],
    );
    d.parent = Some(77);
    d.family_depth = 3;
    d.next_stage_add_data = ColumnSet::only(StandardDataColumns::PosX);
    d.next_stage = vec![descriptor(1, vec![])];
    d.children = vec![descriptor(2, vec![]), descriptor(3, vec![])];
    columns.set_ticks_existed(5, 17);

    let children = columns.add_danmaku_at_idx(5, d, 4242);
    assert_eq!(children.len(), 2);
    assert_eq!(children[0].end_time, 2);
    assert_eq!(children[1].end_time, 3);
    assert_eq!(children[0].parent, None);

    assert_eq!(columns.id(5), 4242);
    assert_eq!(columns.scalar(ScalarField::PosX, 5), n(99));
    assert_eq!(columns.scalar(ScalarField::OldPosX, 5), n(99));
    assert_eq!(columns.scalar(ScalarField::ScaleY, 5), n(13));
    assert_eq!(columns.scalar(ScalarField::OldScaleY, 5), n(13));
    assert_eq!(columns.quat(QuatField::Rotation, 5), q(1, 2, 3, 4));
    assert_eq!(columns.scalar(ScalarField::ForwardX, 5), n(21));
    assert_eq!(columns.scalar(ScalarField::ForwardY, 5), n(22));
    assert_eq!(columns.scalar(ScalarField::ForwardZ, 5), n(23));
    assert_eq!(columns.ticks_existed(5), 0);
    assert_eq!(columns.end_time(5), 40);
    assert_eq!(columns.parent(5), 77);
    assert_eq!(columns.family_depth(5), 3);
    assert!(!columns.dead(5));
    assert!(columns.next_stage_add_data(5).contains(StandardDataColumns::PosX));
    assert_eq!(columns.scalar_blocks(ScalarField::PosY), 0);
    assert_eq!(columns.color_blocks(ColorField::Main), 0);

    assert_eq!(columns.scalar(ScalarField::PosX, 4), Scalar::zero());
    assert_eq!(columns.scalar(ScalarField::PosX, 6), Scalar::zero());
    assert_eq!(columns.id(4), 0);
    assert_eq!(columns.take_next_stage(5).len(), 1);
    assert_eq!(columns.take_next_stage(5).len(), 0);
}

#[test]
fn insertion_keeps_what_the_descriptor_leaves_out() {
    let mut columns = store(&[StandardDataColumns::PosX, StandardDataColumns::PosY]);
    columns.add_danmaku_at_idx(
        0,
        descriptor(1, vec![StandardSpawnData::PosX(n(5)), StandardSpawnData::PosY(n(6))]),
        1,
    );
    columns.add_danmaku_at_idx(0, descriptor(2, vec![StandardSpawnData::PosY(n(7))]), 2);
    assert_eq!(columns.scalar(ScalarField::PosX, 0), n(5));
    assert_eq!(columns.scalar(ScalarField::PosY, 0), n(7));
    assert_eq!(columns.id(0), 2);
}

#[test]
fn appearance_brings_the_properties() {
    let mut columns = store(&[StandardDataColumns::Appearance]);
    let mut d = descriptor(1, vec![StandardSpawnData::Appearance { form: Form { id: "star" } }]);
    d.render_properties = vec![("glow", n(3)), ("size", n(4))];
    columns.add_danmaku_at_idx(2, d, 9);
    assert_eq!(columns.form(2).id(), "star");
    assert_eq!(columns.render_properties(2), &vec![("glow", n(3)), ("size", n(4))]);
    let mut plain = descriptor(1, vec![]);
    plain.render_properties = vec![("lost", n(1))];
    columns.add_danmaku_at_idx(3, plain, 10);
    assert_eq!(columns.form(3).id(), "sphere");
    assert!(columns.render_properties(3).is_empty());
}

fn numbered(columns: &mut StandardColumns, slots: usize) {
    for i in 0..slots {
        let mut d = descriptor(
            100 + i as i16,
            vec![
                StandardSpawnData::PosX(n(1000 + i as u32)),
                StandardSpawnData::MainColor(2000 + i as i32),
                StandardSpawnData::Rotation(q(i as u32, 0, 0, 0)),
                StandardSpawnData::Appearance { form: Form { id: "dot" } },
            ],
        );
        d.parent = Some(3000 + i as i128);
        d.family_depth = i as i16;
        d.render_properties = vec![("slot", n(i as u32))];
        d.next_stage_add_data = ColumnSet::only(StandardDataColumns::PosX);
        d.next_stage = vec![descriptor(i as i16, vec![])];
        columns.add_danmaku_at_idx(i, d, 4000 + i as i128);
        columns.set_ticks_existed(i, 50 + i as i16);
        let mut m = Mat4::identity();
        m.m[12] = n(i as u32);
        columns.set_transform(i, m);
    }
}

fn full_store() -> StandardColumns {
    store(&[
        StandardDataColumns::PosX,
        StandardDataColumns::MainColor,
        StandardDataColumns::Rotation,
        StandardDataColumns::Appearance,
    ])
}

#[test]
fn compaction_moves_live_slots_down_in_order() {
    let mut columns = full_store();
    numbered(&mut columns, 10);
    for i in [1usize, 2, 5, 9] {
        columns.mark_dead(i);
    }
    assert_eq!(columns.current_dead_len(), 4);
    columns.compact(64);

    assert_eq!(columns.capacity(), 64);
    assert_eq!(columns.current_dead_len(), 0);
    assert_eq!(columns.scalar_blocks(ScalarField::PosX), 16);
    assert_eq!(columns.color_blocks(ColorField::Main), 16);
    assert_eq!(columns.tick_blocks(), 8);
    let live = [0usize, 3, 4, 6, 7, 8];
    for (k, from) in live.iter().enumerate() {
        assert_eq!(columns.id(k), 4000 + *from as i128);
        assert_eq!(columns.scalar(ScalarField::PosX, k), n(1000 + *from as u32));
        assert_eq!(columns.scalar(ScalarField::OldPosX, k), n(1000 + *from as u32));
        assert_eq!(columns.color(ColorField::Main, k), 2000 + *from as i32);
        assert_eq!(columns.quat(QuatField::Rotation, k), q(*from as u32, 0, 0, 0));
        assert_eq!(columns.form(k).id(), "dot");
        assert_eq!(columns.render_properties(k), &vec![("slot", n(*from as u32))]);
        assert_eq!(columns.ticks_existed(k), 50 + *from as i16);
        assert_eq!(columns.end_time(k), 100 + *from as i16);
        assert_eq!(columns.parent(k), 3000 + *from as i128);
        assert_eq!(columns.family_depth(k), *from as i16);
        assert_eq!(columns.transform(k).m[12], n(*from as u32));
        assert!(columns.next_stage_add_data(k).contains(StandardDataColumns::PosX));
    }
    for k in 0..6 {
        let stages = columns.take_next_stage(k);
        assert_eq!(stages.len(), 1);
        assert_eq!(stages[0].end_time, live[k] as i16);
    }
    for i in 0..64 {
        assert!(!columns.dead(i));
    }
    for i in 60..64 {
        assert_eq!(columns.scalar(ScalarField::PosX, i), Scalar::zero());
        assert_eq!(columns.id(i), 0);
        assert_eq!(columns.parent(i), -1);
        assert_eq!(columns.form(i).id(), "sphere");
        assert!(columns.render_properties(i).is_empty());
        assert_eq!(columns.transform(i).m, Mat4::identity().m);
        assert!(columns.take_next_stage(i).is_empty());
    }
}

#[test]
fn resize_keeps_slots_and_fills_new_ones() {
    let mut columns = full_store();
    numbered(&mut columns, 4);
    columns.mark_dead(2);
    columns.resize(256);
    assert_eq!(columns.capacity(), 256);
    assert_eq!(columns.scalar_blocks(ScalarField::PosX), 64);
    assert_eq!(columns.tick_blocks(), 32);
    assert_eq!(columns.scalar_blocks(ScalarField::PosY), 0);
    for i in 0..4 {
        assert_eq!(columns.id(i), 4000 + i as i128);
        assert_eq!(columns.scalar(ScalarField::PosX, i), n(1000 + i as u32));
        assert_eq!(columns.color(ColorField::Main, i), 2000 + i as i32);
        assert_eq!(columns.render_properties(i), &vec![("slot", n(i as u32))]);
        assert_eq!(columns.dead(i), i == 2);
    }
    assert_eq!(columns.current_dead_len(), 1);
    for i in [128usize, 200, 255] {
        assert_eq!(columns.scalar(ScalarField::PosX, i), Scalar::zero());
        assert_eq!(columns.quat(QuatField::Rotation, i), Quat::identity());
        assert_eq!(columns.color(ColorField::Main, i), 0);
        assert_eq!(columns.form(i).id(), "sphere");
        assert_eq!(columns.parent(i), -1);
        assert_eq!(columns.family_depth(i), 0);
        assert_eq!(columns.end_time(i), 0);
        assert!(!columns.dead(i));
    }
}

#[test]
fn shrinking_by_resize_forgets_the_dead_slots_it_cuts() {
    let mut columns = StandardColumns::new(8, ColumnSet::empty(), LaneWidths::single());
    columns.mark_dead(1);
    columns.mark_dead(6);
    columns.resize(4);
    assert_eq!(columns.capacity(), 4);
    assert_eq!(columns.current_dead_len(), 1);
    assert!(columns.dead(1));
    columns.resize(8);
    assert!(!columns.dead(6));
    assert_eq!(columns.current_dead_len(), 1);
}

#[test]
fn a_slot_cut_away_comes_back_new() {
    let widths = LaneWidths::new(Some(4), Some(4), Some(256));
    assert_eq!(widths.ticks, 256);
    let mut columns = StandardColumns::new(256, ColumnSet::empty(), widths);
    columns.set_ticks_existed(200, 5);
    columns.resize(128);
    assert_eq!(columns.tick_blocks(), 1);
    columns.resize(256);
    assert_eq!(columns.ticks_existed(200), 0);

    let widths = LaneWidths::new(Some(3), Some(3), Some(8));
    let required = kinds(&[StandardDataColumns::PosX, StandardDataColumns::MainColor]);
    let mut columns = StandardColumns::new(256, required, widths);
    columns.set_scalar(ScalarField::PosX, 127, n(6));
    columns.set_scalar(ScalarField::PosX, 128, n(7));
    columns.set_color(ColorField::Main, 128, 0xff00ff);
    columns.resize(128);
    assert_eq!(columns.scalar_blocks(ScalarField::PosX), 43);
    columns.resize(256);
    assert_eq!(columns.scalar(ScalarField::PosX, 127), n(6));
    assert_eq!(columns.scalar(ScalarField::PosX, 128), Scalar::zero());
    assert_eq!(columns.color(ColorField::Main, 128), 0);
    for i in 128..256 {
        assert_eq!(columns.scalar(ScalarField::PosX, i), Scalar::zero());
        assert_eq!(columns.scalar(ScalarField::OldPosX, i), Scalar::zero());
        assert_eq!(columns.color(ColorField::Main, i), 0);
        assert_eq!(columns.ticks_existed(i), 0);
        assert_eq!(columns.end_time(i), 0);
        assert_eq!(columns.id(i), 0);
        assert!(!columns.dead(i));
    }
}

#[test]
fn compaction_after_a_shrink_hands_out_new_slots() {
    let widths = LaneWidths::new(Some(3), Some(3), Some(256));
    let required = kinds(&[StandardDataColumns::PosX]);
    let mut columns = StandardColumns::new(256, required, widths);
    for i in 0..256 {
        columns.set_scalar(ScalarField::PosX, i, n(1000 + i as u32));
        columns.set_ticks_existed(i, 7);
    }
    columns.resize(128);
    columns.mark_dead(0);
    columns.compact(256);
    assert_eq!(columns.capacity(), 256);
    for i in 0..127 {
        assert_eq!(columns.scalar(ScalarField::PosX, i), n(1001 + i as u32));
        assert_eq!(columns.ticks_existed(i), 7);
    }
    for i in 127..256 {
        assert_eq!(columns.scalar(ScalarField::PosX, i), Scalar::zero());
        assert_eq!(columns.ticks_existed(i), 0);
    }
}

#[test]
fn taking_over_a_dead_slot_revives_it() {
    let mut columns = store(&[]);
    columns.add_danmaku_at_idx(0, descriptor(1, vec![]), 1);
    columns.add_danmaku_at_idx(1, descriptor(1, vec![]), 2);
    columns.mark_dead(0);
    columns.mark_dead(1);
    assert_eq!(columns.current_dead_len(), 2);
    columns.add_danmaku_at_idx(0, descriptor(1, vec![]), 3);
    assert!(!columns.dead(0));
    assert!(columns.dead(1));
    assert_eq!(columns.current_dead_len(), 1);
    assert_eq!(columns.id(0), 3);
}

#[test]
fn spawns_are_grabbed_once() {
    let mut columns = store(&[]);
    columns.push_spawn(descriptor(1, vec![]), Some(4));
    columns.push_spawn(descriptor(2, vec![]), None);
    let spawns = columns.grab_new_spawns();
    assert_eq!(spawns.len(), 2);
    assert_eq!((spawns[0].0.end_time, spawns[0].1), (1, Some(4)));
    assert_eq!((spawns[1].0.end_time, spawns[1].1), (2, None));
    assert!(columns.grab_new_spawns().is_empty());
}

#[test]
fn lane_wise_operations_stop_at_size() {
    let mut columns = store(&[
        StandardDataColumns::PosX,
        StandardDataColumns::MotionX,
        StandardDataColumns::GravityX,
    ]);
    for i in 0..6 {
        columns.set_scalar(ScalarField::PosX, i, n(10 * i as u32));
        columns.set_scalar(ScalarField::MotionX, i, n(i as u32 + 1));
        columns.set_scalar(ScalarField::GravityX, i, n(2));
        columns.set_ticks_existed(i, i as i16);
    }
    copy_scalars(&mut columns, ScalarField::OldPosX, ScalarField::PosX, 4);
    add_scalars(&Whole, &mut columns, ScalarField::PosX, ScalarField::MotionX, 4);
    let pos: Vec<u32> = (0..6).map(|i| columns.scalar(ScalarField::PosX, i).to_bits()).collect();
    let old: Vec<u32> = (0..6).map(|i| columns.scalar(ScalarField::OldPosX, i).to_bits()).collect();
    assert_eq!(pos, vec![1, 12, 23, 34, 40, 50]);
    assert_eq!(old, vec![0, 10, 20, 30, 0, 0]);

    add_scalars_by_ticks(&Whole, &mut columns, ScalarField::MotionX, ScalarField::GravityX, 5);
    let motion: Vec<u32> =
        (0..6).map(|i| columns.scalar(ScalarField::MotionX, i).to_bits()).collect();
    assert_eq!(motion, vec![1, 4, 7, 10, 13, 6]);

    add_products(
        &Whole,
        &mut columns,
        ScalarField::PosX,
        ScalarField::MotionX,
        ScalarField::GravityX,
        2,
    );
    let pos: Vec<u32> = (0..3).map(|i| columns.scalar(ScalarField::PosX, i).to_bits()).collect();
    assert_eq!(pos, vec![3, 20, 23]);
}

#[test]
fn the_end_counts_ticks_and_stages_the_dying() {
    let mut columns = store(&[StandardDataColumns::PosX]);
    let mut one = descriptor(1, vec![StandardSpawnData::PosX(n(100))]);
    one.next_stage_add_data = ColumnSet::only(StandardDataColumns::PosX);
    one.next_stage = vec![descriptor(7, vec![StandardSpawnData::PosX(n(5))])];
    let mut two = descriptor(0, vec![StandardSpawnData::PosX(n(200))]);
    two.next_stage = vec![
        descriptor(8, vec![StandardSpawnData::PosX(n(6))]),
        descriptor(9, vec![StandardSpawnData::PosY(n(7))]),
    ];
    let three = descriptor(0, vec![]);
    columns.add_danmaku_at_idx(0, one, 1);
    columns.add_danmaku_at_idx(1, two, 2);
    columns.add_danmaku_at_idx(2, three, 3);
    columns.add_danmaku_at_idx(3, descriptor(0, vec![]), 4);

    mandatory_end_act(&Whole, &mut columns, 3);
    assert_eq!(
        (0..4).map(|i| columns.ticks_existed(i)).collect::<Vec<i16>>(),
        vec![1, 1, 1, 0]
    );
    assert_eq!((0..4).map(|i| columns.dead(i)).collect::<Vec<bool>>(), vec![false, true, true, false]);
    assert_eq!(columns.current_dead_len(), 2);
    let spawns = columns.grab_new_spawns();
    assert_eq!(spawns.len(), 2);
    assert_eq!((spawns[0].0.end_time, spawns[0].1), (8, None));
    assert_eq!((spawns[1].0.end_time, spawns[1].1), (9, None));
    assert!(matches!(spawns[0].0.behavior_data[0], StandardSpawnData::PosX(v) if v == n(6)));

    mandatory_end_act(&Whole, &mut columns, 3);
    assert_eq!((0..4).map(|i| columns.dead(i)).collect::<Vec<bool>>(), vec![true, true, true, false]);
    assert_eq!(columns.ticks_existed(1), 2);
    assert_eq!(columns.current_dead_len(), 3);
    let spawns = columns.grab_new_spawns();
    assert_eq!(spawns.len(), 1);
    assert_eq!((spawns[0].0.end_time, spawns[0].1), (7, Some(0)));
    assert!(matches!(spawns[0].0.behavior_data[0], StandardSpawnData::PosX(v) if v == n(105)));

    mandatory_end_act(&Whole, &mut columns, 3);
    assert!(columns.grab_new_spawns().is_empty());
    assert_eq!(columns.current_dead_len(), 3);
}

#[test]
fn tick_count_wraps_at_its_greatest_value() {
    let mut columns = store(&[]);
    columns.add_danmaku_at_idx(0, descriptor(i16::MAX, vec![]), 1);
    columns.set_ticks_existed(0, i16::MAX - 1);
    mandatory_end_act(&Whole, &mut columns, 1);
    assert_eq!(columns.ticks_existed(0), i16::MAX);
    assert!(!columns.dead(0));
    mandatory_end_act(&Whole, &mut columns, 1);
    assert_eq!(columns.ticks_existed(0), i16::MIN);
    assert!(!columns.dead(0));
}

#[test]
fn adjustment_follows_the_kind_of_each_attribute() {
    let mut columns = store(&[
        StandardDataColumns::PosX,
        StandardDataColumns::PosY,
        StandardDataColumns::MainColor,
        StandardDataColumns::SecondaryColor,
        StandardDataColumns::Orientation,
        StandardDataColumns::Rotation,
        StandardDataColumns::Forward,
    ]);
    let mut holder = descriptor(
        1,
        vec![
            StandardSpawnData::PosX(n(10)),
            StandardSpawnData::PosY(n(20)),
            StandardSpawnData::MainColor(30),
            StandardSpawnData::SecondaryColor(40),
            StandardSpawnData::Orientation(q(1, 1, 1, 1)),
            StandardSpawnData::Rotation(q(2, 2, 2, 2)),
            StandardSpawnData::Forward(Unit3 { x: n(3), y: n(4), z: n(5) }),
        ],
    );
    holder.next_stage_add_data = kinds(&[
        StandardDataColumns::PosX,
        StandardDataColumns::MainColor,
        StandardDataColumns::Damage,
    ]);
    columns.add_danmaku_at_idx(0, holder, 1);

    let mut next = descriptor(
        1,
        vec![
            StandardSpawnData::PosX(n(1)),
            StandardSpawnData::PosY(n(2)),
            StandardSpawnData::PosZ(n(3)),
            StandardSpawnData::Damage(n(4)),
            StandardSpawnData::MainColor(5),
            StandardSpawnData::SecondaryColor(6),
            StandardSpawnData::Orientation(q(7, 7, 7, 7)),
            StandardSpawnData::Rotation(q(8, 8, 8, 8)),
            StandardSpawnData::Forward(Unit3 { x: n(9), y: n(9), z: n(9) }),
            StandardSpawnData::Appearance { form: Form { id: "star" } },
        ],
    );
    next.parent = Some(5);
    let out = adjust(&Whole, &columns, 0, next);
    assert_eq!(out.parent, Some(5));
    assert_eq!(out.behavior_data.len(), 10);
    assert!(matches!(out.behavior_data[0], StandardSpawnData::PosX(v) if v == n(11)));
    assert!(matches!(out.behavior_data[1], StandardSpawnData::PosY(v) if v == n(2)));
    assert!(matches!(out.behavior_data[2], StandardSpawnData::PosZ(v) if v == n(3)));
    assert!(matches!(out.behavior_data[3], StandardSpawnData::Damage(v) if v == n(4)));
    assert!(matches!(out.behavior_data[4], StandardSpawnData::MainColor(30)));
    assert!(matches!(out.behavior_data[5], StandardSpawnData::SecondaryColor(6)));
    assert!(
        matches!(out.behavior_data[6], StandardSpawnData::Orientation(v) if v == q(17, 17, 17, 17))
    );
    assert!(
        matches!(out.behavior_data[7], StandardSpawnData::Rotation(v) if v == q(28, 28, 28, 28))
    );
    assert!(matches!(
        out.behavior_data[8],
        StandardSpawnData::Forward(v) if v == Unit3 { x: n(1003), y: n(1004), z: n(1005) }
    ));
    assert!(
        matches!(out.behavior_data[9], StandardSpawnData::Appearance { form } if form.id() == "star")
    );
}

#[test]
fn frame_reads_what_the_store_keeps() {
    let mut columns = store(&[
        StandardDataColumns::ScaleX,
        StandardDataColumns::PosX,
        StandardDataColumns::MainColor,
    ]);
    columns.add_danmaku_at_idx(
        0,
        descriptor(
            9,
            vec![
                StandardSpawnData::SizeX(n(3)),
                StandardSpawnData::PosX(n(4)),
                StandardSpawnData::MainColor(5),
            ],
        ),
        11,
    );
    columns.add_danmaku_at_idx(1, descriptor(9, vec![]), 12);
    columns.add_danmaku_at_idx(2, descriptor(8, vec![StandardSpawnData::PosX(n(6))]), 13);
    columns.mark_dead(1);
    columns.set_color(ColorField::OldMain, 0, 7);
    columns.set_ticks_existed(2, 3);

    let data = compute_and_get_render_data(&Whole, &mut columns, 3, n(2));
    assert_eq!(data.len(), 2);
    let (id, first): &(i128, RenderData) = &data[0];
    assert_eq!(*id, 11);
    assert_eq!(first.form.id(), "sphere");
    assert!(first.render_properties.is_empty());
    assert_eq!(first.main_color, 5 * 100 + 7 * 10 + 2);
    assert_eq!(first.secondary_color, 0);
    assert_eq!((first.ticks_existed, first.end_time), (0, 9));
    let one = Scalar::one();
    assert_eq!(first.model_mat.m[0], n(3));
    assert_eq!(first.model_mat.m[1], one);
    assert_eq!(first.model_mat.m[2], n(4));
    assert_eq!(first.model_mat.m[3], Scalar::zero());
    assert_eq!(first.model_mat.m[4], one);
    assert_eq!(first.model_mat.m[5], Scalar::zero());
    assert_eq!(first.model_mat.m[6], n(2));
    assert_eq!(data[1].0, 13);
    assert_eq!((data[1].1.ticks_existed, data[1].1.end_time), (3, 8));
    assert_eq!(data[1].1.model_mat.m[2], n(6));
    assert_eq!(columns.transform(0).m[0], n(3));
    assert_eq!(columns.transform(1).m, Mat4::identity().m);

    compute_transform_mats(&Whole, &mut columns, 1, n(9));
    assert_eq!(columns.transform(0).m[6], n(9));
    assert_eq!(columns.transform(2).m[6], n(2));
}

fn entry(id: i128, x: u32) -> (i128, RenderData) {
    let mut m = [n(0); 16];
    m[0] = n(x);
    (
        id,
        RenderData {
            form: Form::sphere(),
            render_properties: Vec::new(),
            model_mat: Mat4 { m },
            main_color: 0,
            secondary_color: 0,
            ticks_existed: id as i16,
            end_time: 0,
        },
    )
}

#[test]
fn composition_follows_the_order_it_is_given() {
    let local = vec![entry(1, 1), entry(2, 2), entry(3, 3), entry(4, 4)];
    let world = compose_in_order(&Whole, local, &vec![(2, 1), (3, 2), (4, 9), (7, 1)]);
    let found: Vec<(i16, u32)> =
        world.iter().map(|d| (d.ticks_existed, d.model_mat.m[0].to_bits())).collect();
    assert_eq!(found, vec![(1, 1), (2, 12), (3, 123)]);

    let local = vec![entry(1, 1), entry(2, 2), entry(3, 3)];
    let world = compose_in_order(&Whole, local, &vec![(3, 2), (2, 1)]);
    let found: Vec<u32> = world.iter().map(|d| d.model_mat.m[0].to_bits()).collect();
    assert_eq!(found, vec![1, 12, 23]);
}

#[test]
fn a_dropped_parent_drops_its_children_after_it() {
    let local = vec![entry(1, 1), entry(2, 2), entry(3, 3)];
    let world = compose_in_order(&Whole, local, &vec![(1, 9), (2, 1), (3, 2)]);
    assert!(world.is_empty());
}

#[test]
fn of_two_entries_under_one_identifier_the_later_stays() {
    let local = vec![entry(1, 1), entry(1, 5), entry(2, 2)];
    let world = compose_in_order(&Whole, local, &vec![(2, 1)]);
    let found: Vec<u32> = world.iter().map(|d| d.model_mat.m[0].to_bits()).collect();
    assert_eq!(found, vec![5, 52]);
}

type Bucket = DanmakuBehaviorHandler<StandardAct<Whole>>;

fn bucket() -> Bucket {
    let end: Behavior<StandardAct<Whole>> = mandatory_end(Whole);
    assert!(matches!(end.act.which, Standard::MandatoryEnd));
    DanmakuBehaviorHandler::new(5, vec![Rc::new(end)], true, LaneWidths::single())
}

fn fill(bucket: &mut Bucket, count: usize, end_time: i16) {
    let mut depths = HashMap::new();
    let mut parents = HashMap::new();
    for _ in 0..count {
        let taken = bucket.add_danmaku_with_preffered_index(
            descriptor(end_time, vec![]),
            None,
            &mut depths,
            &mut parents,
        );
        assert!(taken.is_ok());
    }
}

#[test]
fn bucket_starts_small_and_empty() {
    let bucket = bucket();
    assert_eq!(bucket.identifier(), 5);
    assert!(bucket.always_keep());
    assert_eq!(bucket.current_size(), 0);
    assert_eq!(bucket.current_max_size(), 128);
    assert_eq!(bucket.count(), 0);
    assert_eq!(bucket.dead(), 0);
    assert!(bucket.stays());
    assert_eq!(bucket.signature(), &vec!["mandatory_end"]);
    assert!(!bucket.should_resize_up_soon());
    assert!(!bucket.should_resize_down_soon());
    assert!(!bucket.must_resize_before_add(1));
    assert!(!bucket.must_resize_before_add(115));
    assert!(bucket.must_resize_before_add(116));
}

#[test]
fn bucket_records_the_family() {
    let mut bucket = bucket();
    let mut depths = HashMap::new();
    let mut parents = HashMap::new();
    let mut d = descriptor(5, vec![]);
    d.family_depth = 2;
    d.parent = Some(99);
    d.children = vec![descriptor(1, vec![]), descriptor(2, vec![])];
    let children =
        bucket.add_danmaku_with_preffered_index(d, Some(3), &mut depths, &mut parents).unwrap();
    let id = 5 * (1i128 << 64);
    assert_eq!(bucket.columns().id(0), id);
    assert_eq!(depths.get(&id), Some(&2));
    assert_eq!(parents.get(&id), Some(&99));
    assert_eq!(children.len(), 2);
    assert_eq!(children[0].parent, Some(id));
    assert_eq!(children[1].parent, Some(id));
    assert_eq!(children[1].end_time, 2);
    assert_eq!(bucket.current_size(), 1);
    assert_eq!(bucket.next_dan_identifier(), 1);

    let root = bucket
        .add_danmaku_with_preffered_index(descriptor(5, vec![]), None, &mut depths, &mut parents)
        .unwrap();
    assert!(root.is_empty());
    assert_eq!(parents.len(), 1);
    assert_eq!(depths.get(&(id + 1)), Some(&UNRESOLVED));
}

#[test]
fn policy_thresholds() {
    let mut bucket = bucket();
    fill(&mut bucket, 115, 50);
    assert_eq!(bucket.current_max_size(), 128);
    assert!(!bucket.should_resize_up_soon());
    assert!(bucket.must_resize_before_add(1));
    fill(&mut bucket, 1, 50);
    assert_eq!(bucket.current_max_size(), 256);
    assert_eq!(bucket.current_size(), 116);
    assert!(!bucket.should_resize_down_soon());
    bucket.resize(false);
    assert_eq!(bucket.current_max_size(), 256);
    fill(&mut bucket, 114, 50);
    assert_eq!(bucket.current_size(), 230);
    assert_eq!(bucket.current_max_size(), 256);
    assert!(!bucket.should_resize_up_soon());
    assert!(bucket.must_resize_before_add(1));
    fill(&mut bucket, 1, 50);
    assert_eq!(bucket.current_size(), 231);
    assert_eq!(bucket.current_max_size(), 512);
    assert!(!bucket.should_resize_down_soon());
    assert!(!bucket.should_resize_up_soon());
}

#[test]
fn close_to_full_beyond_nine_tenths() {
    let mut bucket = bucket();
    fill(&mut bucket, 115, 50);
    let mut depths = HashMap::new();
    let mut parents = HashMap::new();
    bucket.tick();
    assert_eq!(bucket.dead(), 0);
    assert!(!bucket.should_resize_up_soon());
    assert_eq!(bucket.current_size(), 115);
    let spare = bucket.add_danmaku_with_preffered_index(
        descriptor(1, vec![]),
        Some(0),
        &mut depths,
        &mut parents,
    );
    assert!(spare.is_ok());
    assert_eq!(bucket.current_max_size(), 256);
    bucket.resize(false);
    assert_eq!(bucket.current_max_size(), 256);
    assert_eq!(bucket.current_size(), 116);
}

#[test]
fn forced_resize_doubles() {
    let mut bucket = bucket();
    fill(&mut bucket, 3, 50);
    bucket.resize(true);
    assert_eq!(bucket.current_max_size(), 256);
    assert_eq!(bucket.current_size(), 3);
    assert_eq!(bucket.columns().end_time(2), 50);
    assert!(bucket.should_resize_down_soon());
}

#[test]
fn shrinking_compacts_and_counts_the_living() {
    let mut bucket = bucket();
    fill(&mut bucket, 5, 0);
    fill(&mut bucket, 5, 9);
    fill(&mut bucket, 5, 0);
    bucket.resize(true);
    assert_eq!(bucket.current_max_size(), 256);
    let spawns = bucket.tick();
    assert!(spawns.is_empty());
    assert_eq!(bucket.dead(), 10);
    assert_eq!(bucket.count(), 5);
    assert_eq!(bucket.current_size(), 15);

    bucket.resize(false);
    assert_eq!(bucket.current_max_size(), 128);
    assert_eq!(bucket.current_size(), 5);
    assert_eq!(bucket.dead(), 0);
    assert_eq!(bucket.count(), 5);
    let stride = 1i128 << 64;
    for slot in 0..5 {
        assert!(!bucket.columns().dead(slot));
        assert_eq!(bucket.columns().end_time(slot), 9);
        assert_eq!(bucket.columns().ticks_existed(slot), 1);
        assert_eq!(bucket.columns().id(slot), 5 * stride + 5 + slot as i128);
    }
    for slot in 5..128 {
        assert!(!bucket.columns().dead(slot));
    }
    bucket.resize(false);
    assert_eq!(bucket.current_max_size(), 128);
    assert_eq!(bucket.current_size(), 5);
}

#[test]
fn preferred_slot_is_taken_only_when_dead() {
    let mut bucket = bucket();
    fill(&mut bucket, 3, 0);
    let mut depths = HashMap::new();
    let mut parents = HashMap::new();
    bucket
        .add_danmaku_with_preffered_index(descriptor(7, vec![]), Some(1), &mut depths, &mut parents)
        .unwrap();
    assert_eq!(bucket.current_size(), 4);
    assert_eq!(bucket.columns().end_time(3), 7);
    bucket.tick();
    assert_eq!(bucket.dead(), 3);
    bucket
        .add_danmaku_with_preffered_index(descriptor(8, vec![]), Some(1), &mut depths, &mut parents)
        .unwrap();
    assert_eq!(bucket.current_size(), 4);
    assert_eq!(bucket.columns().end_time(1), 8);
    assert_eq!(bucket.dead(), 2);
    assert_eq!(bucket.count(), 2);
    bucket
        .add_danmaku_with_preffered_index(
            descriptor(9, vec![]),
            Some(500),
            &mut depths,
            &mut parents,
        )
        .unwrap();
    assert_eq!(bucket.current_size(), 5);
    assert_eq!(bucket.columns().end_time(4), 9);
}

struct Idle;

impl Act for Idle {
    fn act(&self, _columns: &mut StandardColumns, _size: usize) {}
}

#[test]
fn a_bucket_runs_what_it_was_given() {
    let idle = Behavior::new("idle", ColumnSet::only(StandardDataColumns::Damage), Idle);
    let mut bucket = DanmakuBehaviorHandler::new(1, vec![Rc::new(idle)], false, LaneWidths::single());
    assert!(!bucket.stays());
    let mut depths = HashMap::new();
    let mut parents = HashMap::new();
    bucket
        .add_danmaku_with_preffered_index(
            descriptor(0, vec![StandardSpawnData::Damage(n(4))]),
            None,
            &mut depths,
            &mut parents,
        )
        .unwrap();
    assert!(bucket.stays());
    bucket.tick();
    assert_eq!(bucket.columns().ticks_existed(0), 0);
    assert_eq!(bucket.columns().scalar(ScalarField::Damage, 0), n(4));
    assert_eq!(bucket.columns().scalar_blocks(ScalarField::Damage), 128);
    assert_eq!(bucket.columns().scalar_blocks(ScalarField::PosX), 0);
}
