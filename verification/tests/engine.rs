use dan_core_n::behavior::Behavior;
use dan_core_n::bucket::{DanmakuBehaviorHandler, MIN_SIZE_EXP};
use dan_core_n::color::ColorHex;
use dan_core_n::column_set::{ColumnSet, StandardDataColumns};
use dan_core_n::fields::{ColorField, QuatField, ScalarField};
use dan_core_n::form::Form;
use dan_core_n::handlers::TopDanmakuBehaviorsHandler;
use dan_core_n::lanes::LaneWidths;
use dan_core_n::numeric::{Mat4, Numerics, Pose, Quat, Scalar, Triple, Unit3};
use dan_core_n::render::RenderData;
use dan_core_n::spawn::{DanmakuSpawnData, StandardSpawnData, UNRESOLVED};
use dan_core_n::standard_behaviors::{
    acceleration1_behavior, acceleration3_behavior, gravity1_behavior, gravity3_behavior,
    mandatory_end, motion1_behavior, motion3_behavior, rotate_forward_behavior,
    rotate_orientation_behavior, StandardAct, StandardTopHandlerExt, ACCELERATION1_BEHAVIOR_ID,
    ACCELERATION3_BEHAVIOR_ID, GRAVITY1_BEHAVIOR_ID, GRAVITY3_BEHAVIOR_ID,
    MANDATORY_END_BEHAVIOR_ID, MOTION1_BEHAVIOR_ID, MOTION3_BEHAVIOR_ID,
    ROTATE_FORWARD_BEHAVIOR_ID, ROTATE_ORIENTATION_BEHAVIOR_ID,
};
use nalgebra::{Matrix4, Quaternion, UnitQuaternion, Vector3};

/// Single-precision arithmetic on the host.
#[derive(Clone, Copy)]
struct Floats;

fn num(x: f32) -> Scalar {
    Scalar::from_bits(x.to_bits())
}

fn float(s: Scalar) -> f32 {
    f32::from_bits(s.to_bits())
}

fn quat(q: UnitQuaternion<f32>) -> Quat {
    Quat { x: num(q.i), y: num(q.j), z: num(q.k), w: num(q.w) }
}

fn unit(q: Quat) -> UnitQuaternion<f32> {
    UnitQuaternion::from_quaternion(Quaternion::new(float(q.w), float(q.x), float(q.y), float(q.z)))
}

fn vector(t: Triple) -> Vector3<f32> {
    Vector3::new(float(t.x), float(t.y), float(t.z))
}

fn matrix(m: Mat4) -> Matrix4<f32> {
    let entries: Vec<f32> = m.m.iter().map(|s| float(*s)).collect();
    Matrix4::from_column_slice(&entries)
}

fn mat4(m: Matrix4<f32>) -> Mat4 {
    let mut entries = [Scalar::zero(); 16];
    for (k, v) in m.as_slice().iter().enumerate() {
        entries[k] = num(*v);
    }
    Mat4 { m: entries }
}

fn lerp(a: f32, b: f32, t: f32) -> f32 {
    a * (1.0 - t) + b * t
}

impl Numerics for Floats {
    fn sum(&self, a: Scalar, b: Scalar) -> Scalar {
        num(float(a) + float(b))
    }

    fn product(&self, a: Scalar, b: Scalar) -> Scalar {
        num(float(a) * float(b))
    }

    fn of_ticks(&self, ticks: i16) -> Scalar {
        num(ticks as f32)
    }

    fn rotate(&self, a: Quat, b: Quat) -> Quat {
        quat(unit(a) * unit(b))
    }

    fn turn(&self, by: Quat, v: Unit3) -> Unit3 {
        let turned = (unit(by) * Vector3::new(float(v.x), float(v.y), float(v.z))).normalize();
        Unit3 { x: num(turned.x), y: num(turned.y), z: num(turned.z) }
    }

    fn normalize(&self, x: Scalar, y: Scalar, z: Scalar) -> Unit3 {
        let v = Vector3::new(float(x), float(y), float(z)).normalize();
        Unit3 { x: num(v.x), y: num(v.y), z: num(v.z) }
    }

    fn local_transform(&self, pose: Pose, partial_ticks: Scalar) -> Mat4 {
        let t = float(partial_ticks);
        let scale = vector(pose.old_scale).lerp(&vector(pose.scale), t);
        let pos = vector(pose.old_pos).lerp(&vector(pose.pos), t);
        let orientation = unit(pose.old_orientation).slerp(&unit(pose.orientation), t);
        mat4(
            orientation.to_homogeneous()
                * Matrix4::new_translation(&pos)
                * Matrix4::new_nonuniform_scaling(&scale),
        )
    }

    fn compose(&self, parent: Mat4, child: Mat4) -> Mat4 {
        mat4(matrix(parent) * matrix(child))
    }

    fn blend_color(&self, from: ColorHex, to: ColorHex, partial_ticks: Scalar) -> ColorHex {
        let t = float(partial_ticks);
        let a = from.to_rgb();
        let b = to.to_rgb();
        let mix = |x: u8, y: u8| lerp(x as f32, y as f32, t).round() as u8;
        dan_core_n::color::ColorRgb { r: mix(a.r, b.r), g: mix(a.g, b.g), b: mix(a.b, b.b) }.to_hex()
    }
}

type Engine = TopDanmakuBehaviorsHandler<StandardAct<Floats>>;

fn engine() -> Engine {
    let mut top = TopDanmakuBehaviorsHandler::new(LaneWidths::new(Some(4), Some(4), Some(8)));
    top.register_standard_behaviors(Floats);
    top
}

fn descriptor(
    end_time: i16,
    behavior_data: Vec<StandardSpawnData>,
    behaviors: Vec<&'static str>,
) -> DanmakuSpawnData {
    DanmakuSpawnData {
        end_time,
        behavior_data,
        render_properties: Vec::new(),
        behaviors,
        next_stage_add_data: ColumnSet::empty(),
        next_stage: Vec::new(),
        parent: None,
        children: Vec::new(),
        family_depth: UNRESOLVED,
    }
}

fn close(a: f32, b: f32) -> bool {
    (a - b).abs() < 1e-5
}

fn position(data: &RenderData) -> (f32, f32, f32) {
    (float(data.model_mat.m[12]), float(data.model_mat.m[13]), float(data.model_mat.m[14]))
}

fn straight_shot() -> DanmakuSpawnData {
    descriptor(
        3,
        vec![StandardSpawnData::PosZ(num(0.0)), StandardSpawnData::MotionZ(num(0.1))],
        vec![MOTION1_BEHAVIOR_ID, MANDATORY_END_BEHAVIOR_ID],
    )
}

#[test]
fn single_straight_shot_moves_and_dies() {
    let mut top = engine();
    assert!(top.add_danmaku(vec![straight_shot()]).is_empty());
    assert_eq!(top.bucket_count(), 1);

    top.tick();
    assert!(close(float(top.bucket(0).columns().scalar(ScalarField::PosZ, 0)), 0.1));
    top.tick();
    top.tick();
    assert!(close(float(top.bucket(0).columns().scalar(ScalarField::PosZ, 0)), 0.3));
    assert!(!top.bucket(0).columns().dead(0));
    assert_eq!(top.bucket(0).count(), 1);
    top.tick();
    assert!(top.bucket(0).columns().dead(0));
    assert_eq!(top.bucket(0).count(), 0);
}

#[test]
fn single_straight_shot_renders_between_ticks() {
    let mut top = engine();
    top.add_danmaku(vec![straight_shot()]);
    top.tick();
    top.tick();

    let now = top.render_data(&Floats, num(1.0));
    assert_eq!(now.len(), 1);
    assert!(close(position(&now[0]).2, 0.2));
    assert_eq!(now[0].ticks_existed, 2);
    assert_eq!(now[0].end_time, 3);
    assert_eq!(now[0].form.id(), "sphere");

    let before = top.render_data(&Floats, num(0.0));
    assert_eq!(before.len(), 1);
    assert!(close(position(&before[0]).2, 0.1));

    let halfway = top.render_data(&Floats, num(0.5));
    assert!(close(position(&halfway[0]).2, 0.15));
}

#[test]
fn dead_projectiles_are_not_rendered() {
    let mut top = engine();
    top.add_danmaku(vec![straight_shot()]);
    for _ in 0..4 {
        top.tick();
    }
    assert!(top.render_data(&Floats, num(1.0)).is_empty());
}

fn falling(signature: Vec<&'static str>) -> DanmakuSpawnData {
    descriptor(
        10,
        vec![
            StandardSpawnData::MotionY(num(0.0)),
            StandardSpawnData::GravityY(num(-0.01)),
            StandardSpawnData::MotionZ(num(1.0)),
            StandardSpawnData::SpeedAccel(num(0.1)),
        ],
        signature,
    )
}

#[test]
fn gravity_and_acceleration_by_tick_index() {
    let mut top = engine();
    top.add_danmaku(vec![falling(vec![
        MANDATORY_END_BEHAVIOR_ID,
        GRAVITY1_BEHAVIOR_ID,
        ACCELERATION1_BEHAVIOR_ID,
    ])]);
    for _ in 0..5 {
        top.tick();
    }
    let columns = top.bucket(0).columns();
    assert!(close(float(columns.scalar(ScalarField::MotionY, 0)), -0.15));
    assert!(close(float(columns.scalar(ScalarField::MotionZ, 0)), 1.5));
}

#[test]
fn gravity_before_the_count_sees_the_ticks_so_far() {
    let mut top = engine();
    top.add_danmaku(vec![falling(vec![
        GRAVITY1_BEHAVIOR_ID,
        ACCELERATION1_BEHAVIOR_ID,
        MANDATORY_END_BEHAVIOR_ID,
    ])]);
    for _ in 0..5 {
        top.tick();
    }
    let columns = top.bucket(0).columns();
    assert!(close(float(columns.scalar(ScalarField::MotionY, 0)), -0.10));
    assert!(close(float(columns.scalar(ScalarField::MotionZ, 0)), 1.5));
    assert_eq!(columns.ticks_existed(0), 5);
}

#[test]
fn single_successor_takes_over_the_slot() {
    let mut top = engine();
    let signature = vec![MOTION1_BEHAVIOR_ID, MANDATORY_END_BEHAVIOR_ID];
    let mut first = descriptor(1, vec![StandardSpawnData::PosZ(num(0.0))], signature.clone());
    first.next_stage = vec![descriptor(5, vec![StandardSpawnData::PosZ(num(7.0))], signature)];
    top.add_danmaku(vec![first]);
    let first_id = top.bucket(0).columns().id(0);

    top.tick();
    assert_eq!(top.bucket(0).count(), 1);
    assert_eq!(top.bucket(0).columns().id(0), first_id);
    top.tick();

    assert_eq!(top.bucket_count(), 1);
    assert_eq!(top.bucket(0).count(), 1);
    assert_eq!(top.bucket(0).current_size(), 1);
    assert!(!top.bucket(0).columns().dead(0));
    assert_ne!(top.bucket(0).columns().id(0), first_id);
    assert_eq!(top.bucket(0).columns().end_time(0), 5);
    assert_eq!(top.bucket(0).columns().ticks_existed(0), 0);
    assert!(close(float(top.bucket(0).columns().scalar(ScalarField::PosZ, 0)), 7.0));
}

#[test]
fn fan_out_goes_to_fresh_slots() {
    let mut top = engine();
    let signature = vec![MOTION1_BEHAVIOR_ID, MANDATORY_END_BEHAVIOR_ID];
    let mut first = descriptor(1, vec![], signature.clone());
    first.next_stage = vec![
        descriptor(5, vec![StandardSpawnData::PosZ(num(1.0))], signature.clone()),
        descriptor(6, vec![StandardSpawnData::PosZ(num(2.0))], signature),
    ];
    top.add_danmaku(vec![first]);
    top.tick();
    top.tick();

    let bucket = top.bucket(0);
    assert_eq!(bucket.current_size(), 3);
    assert_eq!(bucket.count(), 2);
    assert!(bucket.columns().dead(0));
    assert!(!bucket.columns().dead(1));
    assert!(!bucket.columns().dead(2));
    assert_eq!(bucket.columns().end_time(1), 5);
    assert_eq!(bucket.columns().end_time(2), 6);
}

#[test]
fn successor_of_another_signature_goes_to_its_own_bucket() {
    let mut top = engine();
    let mut first =
        descriptor(1, vec![], vec![MOTION1_BEHAVIOR_ID, MANDATORY_END_BEHAVIOR_ID]);
    first.next_stage =
        vec![descriptor(5, vec![], vec![GRAVITY1_BEHAVIOR_ID, MANDATORY_END_BEHAVIOR_ID])];
    top.add_danmaku(vec![first]);
    top.tick();
    top.tick();

    assert_eq!(top.bucket_count(), 2);
    assert_eq!(top.bucket(0).count(), 0);
    assert!(top.bucket(0).columns().dead(0));
    assert_eq!(top.bucket(1).count(), 1);
    assert_eq!(top.bucket(1).current_size(), 1);
}

#[test]
fn child_is_placed_relative_to_its_parent() {
    let mut top = engine();
    let signature = vec![MOTION3_BEHAVIOR_ID, MANDATORY_END_BEHAVIOR_ID];
    let at = |x: f32, y: f32, z: f32| {
        vec![
            StandardSpawnData::PosX(num(x)),
            StandardSpawnData::PosY(num(y)),
            StandardSpawnData::PosZ(num(z)),
        ]
    };
    let mut parent = descriptor(100, at(1.0, 0.0, 0.0), signature.clone());
    parent.children = vec![descriptor(100, at(0.0, 1.0, 0.0), signature)];
    assert!(top.add_danmaku(vec![parent]).is_empty());

    let columns = top.bucket(0).columns();
    let parent_id = columns.id(0);
    let child_id = columns.id(1);
    assert_eq!(top.parent(child_id), Some(parent_id));
    assert_eq!(top.parent(parent_id), None);
    assert_eq!(top.family_depth(parent_id), Some(0));
    assert_eq!(top.family_depth(child_id), Some(1));

    let world = top.render_data(&Floats, num(1.0));
    assert_eq!(world.len(), 2);
    let (x, y, z) = position(&world[0]);
    assert!(close(x, 1.0) && close(y, 0.0) && close(z, 0.0));
    let (x, y, z) = position(&world[1]);
    assert!(close(x, 1.0) && close(y, 1.0) && close(z, 0.0));
}

#[test]
fn grandchild_takes_in_the_whole_chain() {
    let mut top = engine();
    let signature = vec![MOTION3_BEHAVIOR_ID, MANDATORY_END_BEHAVIOR_ID];
    let at = |x: f32| vec![StandardSpawnData::PosX(num(x))];
    let mut grandchild = descriptor(100, at(4.0), signature.clone());
    grandchild.family_depth = 2;
    let mut child = descriptor(100, at(2.0), signature.clone());
    child.family_depth = 1;
    child.children = vec![grandchild];
    let mut parent = descriptor(100, at(1.0), signature);
    parent.family_depth = 0;
    parent.children = vec![child];
    assert!(top.add_danmaku(vec![parent]).is_empty());

    let ids: Vec<i128> = (0..3).map(|i| top.bucket(0).columns().id(i)).collect();
    assert_eq!(top.family_depth(ids[0]), Some(0));
    assert_eq!(top.family_depth(ids[1]), Some(1));
    assert_eq!(top.family_depth(ids[2]), Some(2));
    assert_eq!(top.parent(ids[2]), Some(ids[1]));

    let world = top.render_data(&Floats, num(1.0));
    assert_eq!(world.len(), 3);
    assert!(close(position(&world[0]).0, 1.0));
    assert!(close(position(&world[1]).0, 3.0));
    assert!(close(position(&world[2]).0, 7.0));
}

#[test]
fn child_of_a_dead_parent_is_not_rendered() {
    let mut top = engine();
    let signature = vec![MOTION3_BEHAVIOR_ID, MANDATORY_END_BEHAVIOR_ID];
    let mut parent = descriptor(0, vec![], signature.clone());
    parent.children = vec![descriptor(100, vec![], signature)];
    top.add_danmaku(vec![parent]);
    assert_eq!(top.render_data(&Floats, num(1.0)).len(), 2);
    top.tick();
    assert!(top.bucket(0).columns().dead(0));
    assert!(!top.bucket(0).columns().dead(1));
    assert!(top.render_data(&Floats, num(1.0)).is_empty());
}

#[test]
fn signatures_are_ordered() {
    let mut top = engine();
    let one = descriptor(5, vec![], vec![MOTION1_BEHAVIOR_ID, GRAVITY1_BEHAVIOR_ID]);
    let other = descriptor(5, vec![], vec![GRAVITY1_BEHAVIOR_ID, MOTION1_BEHAVIOR_ID]);
    let again = descriptor(5, vec![], vec![MOTION1_BEHAVIOR_ID, GRAVITY1_BEHAVIOR_ID]);
    top.add_danmaku(vec![one, other, again]);
    assert_eq!(top.bucket_count(), 2);
    assert_eq!(top.bucket(0).signature(), &vec![MOTION1_BEHAVIOR_ID, GRAVITY1_BEHAVIOR_ID]);
    assert_eq!(top.bucket(1).signature(), &vec![GRAVITY1_BEHAVIOR_ID, MOTION1_BEHAVIOR_ID]);
    assert_eq!(top.bucket(0).current_size(), 2);
    assert_eq!(top.bucket(1).current_size(), 1);
    top.tick();
    assert_eq!(top.bucket_count(), 2);
}

#[test]
fn buckets_allocate_what_their_behaviors_want() {
    let mut top = engine();
    top.add_danmaku(vec![
        descriptor(5, vec![], vec![MOTION1_BEHAVIOR_ID, MANDATORY_END_BEHAVIOR_ID]),
        descriptor(5, vec![], vec![GRAVITY1_BEHAVIOR_ID, MANDATORY_END_BEHAVIOR_ID]),
    ]);
    let moving = top.bucket(0).columns();
    assert!(moving.required_columns().contains(StandardDataColumns::PosZ));
    assert!(moving.required_columns().contains(StandardDataColumns::MotionZ));
    assert!(!moving.required_columns().contains(StandardDataColumns::GravityY));
    assert_eq!(moving.scalar_blocks(ScalarField::PosZ), 32);
    assert_eq!(moving.scalar_blocks(ScalarField::OldPosZ), 32);
    assert_eq!(moving.scalar_blocks(ScalarField::MotionZ), 32);
    assert_eq!(moving.scalar_blocks(ScalarField::PosX), 0);
    assert_eq!(moving.scalar_blocks(ScalarField::GravityY), 0);
    assert_eq!(moving.color_blocks(ColorField::Main), 0);
    assert_eq!(moving.tick_blocks(), 16);

    let falling = top.bucket(1).columns();
    assert!(falling.required_columns().contains(StandardDataColumns::MotionY));
    assert!(falling.required_columns().contains(StandardDataColumns::GravityY));
    assert!(!falling.required_columns().contains(StandardDataColumns::PosZ));
    assert_eq!(falling.scalar_blocks(ScalarField::GravityY), 32);
    assert_eq!(falling.scalar_blocks(ScalarField::PosZ), 0);
}

#[test]
fn identifiers_are_bucket_and_count() {
    let mut top = engine();
    let signature = vec![MOTION1_BEHAVIOR_ID, MANDATORY_END_BEHAVIOR_ID];
    top.add_danmaku(vec![
        descriptor(5, vec![], signature.clone()),
        descriptor(5, vec![], signature),
        descriptor(5, vec![], vec![GRAVITY1_BEHAVIOR_ID]),
    ]);
    let stride: i128 = 1 << 64;
    assert_eq!(top.bucket(0).identifier(), 1);
    assert_eq!(top.bucket(1).identifier(), 2);
    assert_eq!(top.bucket(0).columns().id(0), stride);
    assert_eq!(top.bucket(0).columns().id(1), stride + 1);
    assert_eq!(top.bucket(1).columns().id(0), 2 * stride);
    assert_eq!(top.bucket(0).next_dan_identifier(), 2);
}

#[test]
fn identifiers_never_recur() {
    let mut top = engine();
    let signature = vec![MOTION1_BEHAVIOR_ID, MANDATORY_END_BEHAVIOR_ID];
    let mut seen = std::collections::HashSet::new();
    for round in 0..6 {
        let mut d = descriptor(0, vec![], signature.clone());
        d.next_stage = vec![descriptor(1, vec![], signature.clone())];
        top.add_danmaku(vec![d, descriptor(round, vec![], vec![GRAVITY1_BEHAVIOR_ID])]);
        top.tick();
        top.cleanup();
        for k in 0..top.bucket_count() {
            let bucket = top.bucket(k);
            for slot in 0..bucket.current_size() {
                if !bucket.columns().dead(slot) {
                    let id = bucket.columns().id(slot);
                    assert!(top.family_depth(id).is_some());
                    seen.insert(id);
                }
            }
        }
    }
    assert!(seen.len() >= 12);
    let stride: i128 = 1 << 64;
    for id in &seen {
        let bucket = id / stride;
        assert!(bucket >= 1);
    }
}

#[test]
fn descriptor_without_its_parent_is_handed_back() {
    let mut top = engine();
    let mut orphan = descriptor(5, vec![], vec![MOTION1_BEHAVIOR_ID]);
    orphan.parent = Some(12345);
    let back = top.add_danmaku(vec![orphan, descriptor(7, vec![], vec![MOTION1_BEHAVIOR_ID])]);
    assert_eq!(back.len(), 1);
    assert_eq!(back[0].end_time, 5);
    assert_eq!(back[0].family_depth, UNRESOLVED);
    assert_eq!(top.bucket(0).count(), 1);
}

#[test]
fn descriptor_waits_for_its_parent() {
    let mut top = engine();
    let signature = vec![MOTION1_BEHAVIOR_ID];
    top.add_danmaku(vec![descriptor(5, vec![], signature.clone())]);
    let parent_id = top.bucket(0).columns().id(0);
    let next_id = parent_id + 1;

    let mut late = descriptor(6, vec![], signature.clone());
    late.parent = Some(next_id);
    let mut early = descriptor(7, vec![], signature);
    early.parent = Some(parent_id);
    assert!(top.add_danmaku(vec![late, early]).is_empty());

    let columns = top.bucket(0).columns();
    assert_eq!(columns.end_time(1), 7);
    assert_eq!(columns.id(1), next_id);
    assert_eq!(columns.end_time(2), 6);
    assert_eq!(columns.parent(2), next_id);
    assert_eq!(columns.parent(0), -1);
    assert_eq!(top.family_depth(parent_id), Some(0));
    assert_eq!(top.family_depth(next_id), Some(1));
    assert_eq!(top.family_depth(columns.id(2)), Some(2));
}

#[test]
fn cleanup_drops_empty_buckets_once() {
    let mut top = engine();
    top.add_danmaku(vec![
        descriptor(0, vec![], vec![MOTION1_BEHAVIOR_ID, MANDATORY_END_BEHAVIOR_ID]),
        descriptor(9, vec![], vec![GRAVITY1_BEHAVIOR_ID, MANDATORY_END_BEHAVIOR_ID]),
    ]);
    top.tick();
    assert_eq!(top.bucket_count(), 2);
    top.cleanup();
    assert_eq!(top.bucket_count(), 1);
    assert_eq!(top.bucket(0).identifier(), 2);
    top.cleanup();
    assert_eq!(top.bucket_count(), 1);
    assert_eq!(top.bucket(0).identifier(), 2);
    assert_eq!(top.bucket(0).count(), 1);
}

#[test]
fn a_bucket_made_after_cleanup_gets_a_new_identifier() {
    let mut top = engine();
    let signature = vec![MOTION1_BEHAVIOR_ID, MANDATORY_END_BEHAVIOR_ID];
    top.add_danmaku(vec![descriptor(0, vec![], signature.clone())]);
    let first = top.bucket(0).columns().id(0);
    top.tick();
    top.cleanup();
    assert_eq!(top.bucket_count(), 0);
    top.add_danmaku(vec![descriptor(0, vec![], signature)]);
    assert_eq!(top.bucket(0).identifier(), 2);
    assert_ne!(top.bucket(0).columns().id(0), first);
}

#[test]
fn bucket_grows_before_it_runs_short() {
    let mut top = engine();
    let signature = vec![MOTION1_BEHAVIOR_ID];
    let many: Vec<DanmakuSpawnData> =
        (0..115).map(|k| descriptor(k, vec![], signature.clone())).collect();
    top.add_danmaku(many);
    assert_eq!(top.bucket(0).current_size(), 115);
    assert_eq!(top.bucket(0).current_max_size(), 128);
    assert!(top.bucket(0).must_resize_before_add(1));
    assert!(!top.bucket(0).should_resize_up_soon());

    top.add_danmaku(vec![descriptor(500, vec![], signature)]);
    assert_eq!(top.bucket(0).current_size(), 116);
    assert_eq!(top.bucket(0).current_max_size(), 256);
    assert_eq!(top.bucket(0).columns().capacity(), 256);
    assert_eq!(top.bucket(0).columns().scalar_blocks(ScalarField::PosZ), 64);
    assert_eq!(top.bucket(0).columns().end_time(115), 500);
    assert_eq!(top.bucket(0).columns().end_time(114), 114);
}

#[test]
fn next_stage_takes_over_what_the_mask_names() {
    let mut top = engine();
    let signature = vec![MOTION3_BEHAVIOR_ID, MANDATORY_END_BEHAVIOR_ID];
    let mut first = descriptor(
        0,
        vec![
            StandardSpawnData::PosX(num(10.0)),
            StandardSpawnData::PosY(num(20.0)),
            StandardSpawnData::MotionX(num(1.0)),
        ],
        signature.clone(),
    );
    first.next_stage_add_data = ColumnSet::only(StandardDataColumns::PosX)
        .with(StandardDataColumns::Damage);
    first.next_stage = vec![descriptor(
        9,
        vec![
            StandardSpawnData::PosX(num(0.5)),
            StandardSpawnData::PosY(num(0.25)),
            StandardSpawnData::Damage(num(3.0)),
        ],
        signature,
    )];
    top.add_danmaku(vec![first]);
    top.tick();

    let columns = top.bucket(0).columns();
    assert_eq!(top.bucket(0).current_size(), 1);
    assert!(!columns.dead(0));
    assert_eq!(columns.end_time(0), 9);
    assert!(close(float(columns.scalar(ScalarField::PosX, 0)), 11.5));
    assert!(close(float(columns.scalar(ScalarField::OldPosX, 0)), 11.5));
    assert!(close(float(columns.scalar(ScalarField::PosY, 0)), 0.25));
}

#[test]
fn motion3_moves_along_every_axis() {
    let mut top = engine();
    top.add_danmaku(vec![descriptor(
        50,
        vec![
            StandardSpawnData::PosX(num(1.0)),
            StandardSpawnData::PosY(num(2.0)),
            StandardSpawnData::PosZ(num(3.0)),
            StandardSpawnData::MotionX(num(0.5)),
            StandardSpawnData::MotionY(num(-0.5)),
            StandardSpawnData::MotionZ(num(0.25)),
        ],
        vec![MOTION3_BEHAVIOR_ID],
    )]);
    top.tick();
    top.tick();
    let columns = top.bucket(0).columns();
    assert!(close(float(columns.scalar(ScalarField::PosX, 0)), 2.0));
    assert!(close(float(columns.scalar(ScalarField::PosY, 0)), 1.0));
    assert!(close(float(columns.scalar(ScalarField::PosZ, 0)), 3.5));
    assert!(close(float(columns.scalar(ScalarField::OldPosX, 0)), 1.5));
    assert!(close(float(columns.scalar(ScalarField::OldPosY, 0)), 1.5));
    assert!(close(float(columns.scalar(ScalarField::OldPosZ, 0)), 3.25));
    assert_eq!(columns.ticks_existed(0), 0);
}

#[test]
fn gravity3_and_acceleration3_change_the_motion() {
    let mut top = engine();
    top.add_danmaku(vec![descriptor(
        50,
        vec![
            StandardSpawnData::GravityX(num(1.0)),
            StandardSpawnData::GravityY(num(2.0)),
            StandardSpawnData::GravityZ(num(3.0)),
            StandardSpawnData::SpeedAccel(num(0.5)),
            StandardSpawnData::Forward(Unit3 { x: num(0.0), y: num(1.0), z: num(0.0) }),
        ],
        vec![MANDATORY_END_BEHAVIOR_ID, GRAVITY3_BEHAVIOR_ID, ACCELERATION3_BEHAVIOR_ID],
    )]);
    top.tick();
    top.tick();
    let columns = top.bucket(0).columns();
    assert!(close(float(columns.scalar(ScalarField::MotionX, 0)), 3.0));
    assert!(close(float(columns.scalar(ScalarField::MotionY, 0)), 7.0));
    assert!(close(float(columns.scalar(ScalarField::MotionZ, 0)), 9.0));
}

#[test]
fn rotations_turn_orientation_and_forward() {
    let mut top = engine();
    let quarter = UnitQuaternion::from_axis_angle(&Vector3::z_axis(), std::f32::consts::FRAC_PI_2);
    top.add_danmaku(vec![descriptor(
        50,
        vec![
            StandardSpawnData::Rotation(quat(quarter)),
            StandardSpawnData::Orientation(Quat::identity()),
            StandardSpawnData::Forward(Unit3 { x: num(1.0), y: num(0.0), z: num(0.0) }),
        ],
        vec![ROTATE_ORIENTATION_BEHAVIOR_ID, ROTATE_FORWARD_BEHAVIOR_ID],
    )]);
    top.tick();
    let columns = top.bucket(0).columns();
    let turned = unit(columns.quat(QuatField::Orientation, 0));
    assert!(turned.angle_to(&quarter) < 1e-5);
    assert_eq!(columns.quat(QuatField::OldOrientation, 0), Quat::identity());
    assert!(close(float(columns.scalar(ScalarField::ForwardX, 0)), 0.0));
    assert!(close(float(columns.scalar(ScalarField::ForwardY, 0)), 1.0));
    assert!(close(float(columns.scalar(ScalarField::ForwardZ, 0)), 0.0));
    top.tick();
    let columns = top.bucket(0).columns();
    assert!(unit(columns.quat(QuatField::OldOrientation, 0)).angle_to(&quarter) < 1e-5);
    assert!(close(float(columns.scalar(ScalarField::ForwardX, 0)), -1.0));
}

#[test]
fn colors_and_appearance_reach_the_frame() {
    let mut top = TopDanmakuBehaviorsHandler::new(LaneWidths::single());
    top.register_behavior(Behavior::new(
        "painted",
        ColumnSet::only(StandardDataColumns::Appearance)
            .with(StandardDataColumns::MainColor)
            .with(StandardDataColumns::ScaleX),
        mandatory_end(Floats).act,
    ));
    let mut shown = descriptor(
        50,
        vec![
            StandardSpawnData::Appearance { form: Form { id: "star" } },
            StandardSpawnData::MainColor(0xFF0000),
            StandardSpawnData::SecondaryColor(0x00FF00),
            StandardSpawnData::SizeX(num(2.0)),
        ],
        vec!["painted"],
    );
    shown.render_properties = vec![("glow", num(0.5))];
    assert!(top.add_danmaku(vec![shown]).is_empty());
    top.tick();

    let world = top.render_data(&Floats, num(0.25));
    assert_eq!(world.len(), 1);
    assert_eq!(world[0].form.id(), "star");
    assert_eq!(world[0].render_properties, vec![("glow", num(0.5))]);
    assert_eq!(world[0].main_color, 0xFF0000);
    assert_eq!(world[0].secondary_color, 0);
    assert_eq!(world[0].ticks_existed, 1);
    assert!(close(float(world[0].model_mat.m[0]), 2.0));
    assert!(close(float(world[0].model_mat.m[5]), 1.0));
    assert!(close(float(world[0].model_mat.m[10]), 1.0));
}

#[test]
fn standard_behaviors_are_registered_by_name() {
    let top = engine();
    for name in [
        MOTION1_BEHAVIOR_ID,
        GRAVITY1_BEHAVIOR_ID,
        ACCELERATION1_BEHAVIOR_ID,
        ROTATE_ORIENTATION_BEHAVIOR_ID,
        ROTATE_FORWARD_BEHAVIOR_ID,
        MOTION3_BEHAVIOR_ID,
        GRAVITY3_BEHAVIOR_ID,
        ACCELERATION3_BEHAVIOR_ID,
        MANDATORY_END_BEHAVIOR_ID,
    ] {
        assert!(top.find_behavior(name).is_some());
    }
    assert_eq!(top.find_behavior("motion2"), None);
    assert_eq!(top.find_behavior(MOTION1_BEHAVIOR_ID), Some(0));
    assert_eq!(top.find_behavior(MANDATORY_END_BEHAVIOR_ID), Some(8));
}

#[test]
fn registering_again_replaces_for_new_buckets_only() {
    let mut top = engine();
    top.add_danmaku(vec![descriptor(50, vec![], vec![MOTION1_BEHAVIOR_ID])]);
    top.register_behavior(Behavior::new(
        MOTION1_BEHAVIOR_ID,
        ColumnSet::only(StandardDataColumns::Damage),
        mandatory_end(Floats).act,
    ));
    assert_eq!(top.find_behavior(MOTION1_BEHAVIOR_ID), Some(0));
    top.tick();
    assert_eq!(top.bucket(0).columns().ticks_existed(0), 0);
    top.cleanup();
    top.add_danmaku(vec![descriptor(50, vec![], vec![MOTION1_BEHAVIOR_ID])]);
    assert_eq!(top.bucket_count(), 1);
    assert!(top.bucket(0).columns().required_columns().contains(StandardDataColumns::PosZ));
}

#[test]
fn builders_name_their_behaviors() {
    assert_eq!(motion1_behavior(Floats).identifier, "motion1");
    assert_eq!(gravity1_behavior(Floats).identifier, "gravity1");
    assert_eq!(acceleration1_behavior(Floats).identifier, "acceleration1");
    assert_eq!(rotate_orientation_behavior(Floats).identifier, "rotate_orientation");
    assert_eq!(rotate_forward_behavior(Floats).identifier, "rotate_forward");
    assert_eq!(motion3_behavior(Floats).identifier, "motion3");
    assert_eq!(gravity3_behavior(Floats).identifier, "gravity3");
    assert_eq!(acceleration3_behavior(Floats).identifier, "acceleration3");
    assert_eq!(mandatory_end(Floats).identifier, "mandatory_end");
    let wanted = gravity3_behavior(Floats).required_columns;
    for kind in [
        StandardDataColumns::MotionX,
        StandardDataColumns::MotionY,
        StandardDataColumns::MotionZ,
        StandardDataColumns::GravityX,
        StandardDataColumns::GravityY,
        StandardDataColumns::GravityZ,
    ] {
        assert!(wanted.contains(kind));
    }
    assert!(!wanted.contains(StandardDataColumns::PosX));
    assert!(!mandatory_end(Floats).required_columns.contains(StandardDataColumns::PosX));
}

#[test]
fn a_bucket_shares_the_registered_behaviors() {
    let mut top = engine();
    top.add_danmaku(vec![straight_shot()]);
    let bucket: &DanmakuBehaviorHandler<StandardAct<Floats>> = top.bucket(0);
    assert_eq!(bucket.signature().len(), 2);
    assert_eq!(bucket.always_keep(), false);
    assert_eq!(MIN_SIZE_EXP, 7);
    top.tick();
    assert!(close(float(top.bucket(0).columns().scalar(ScalarField::PosZ, 0)), 0.1));
    assert_eq!(top.bucket(0).columns().ticks_existed(0), 1);
}

#[test]
fn memory_warning_cleans_up() {
    let mut top = engine();
    top.add_danmaku(vec![
        descriptor(0, vec![], vec![MOTION1_BEHAVIOR_ID, MANDATORY_END_BEHAVIOR_ID]),
        descriptor(9, vec![], vec![GRAVITY1_BEHAVIOR_ID, MANDATORY_END_BEHAVIOR_ID]),
    ]);
    top.tick();
    top.memory_warning();
    assert_eq!(top.bucket_count(), 1);
    assert_eq!(top.bucket(0).identifier(), 2);
}

#[test]
fn resolved_child_is_one_deeper_than_its_parent() {
    let mut top = engine();
    let signature = vec![MOTION1_BEHAVIOR_ID];
    let mut root = descriptor(5, vec![], signature.clone());
    root.family_depth = 3;
    top.add_danmaku(vec![root]);
    let root_id = top.bucket(0).columns().id(0);

    let mut joined = descriptor(5, vec![], signature.clone());
    joined.parent = Some(root_id);
    let mut inner = descriptor(5, vec![], signature.clone());
    inner.children = vec![descriptor(5, vec![], signature)];
    joined.children = vec![inner];
    assert!(top.add_danmaku(vec![joined]).is_empty());

    let columns = top.bucket(0).columns();
    assert_eq!(columns.family_depth(0), 3);
    assert_eq!(columns.family_depth(1), 4);
    assert_eq!(columns.family_depth(2), 5);
    assert_eq!(columns.family_depth(3), 6);
    for slot in 1..4 {
        let id = columns.id(slot);
        let parent = top.parent(id).unwrap();
        assert_eq!(top.family_depth(id).unwrap(), top.family_depth(parent).unwrap() + 1);
    }
}

#[test]
fn unresolved_parent_and_child_get_depths_zero_and_one() {
    let mut top = TopDanmakuBehaviorsHandler::new(LaneWidths::single());
    top.register_behavior(mandatory_end(Floats));
    let child = descriptor(5, vec![], vec![MANDATORY_END_BEHAVIOR_ID]);
    let mut parent = descriptor(5, vec![], vec![MANDATORY_END_BEHAVIOR_ID]);
    parent.children = vec![child];
    assert!(top.add_danmaku(vec![parent]).is_empty());

    assert_eq!(top.bucket(0).count(), 2);
    let parent_id = top.bucket(0).columns().id(0);
    let child_id = top.bucket(0).columns().id(1);
    assert_eq!(top.parent(child_id), Some(parent_id));
    assert_eq!(top.parent(parent_id), None);
    assert_eq!(top.family_depth(parent_id), Some(0));
    assert_eq!(top.family_depth(child_id), Some(1));
}

#[test]
fn projectiles_created_one_by_one_are_composed_from_the_root_down() {
    let mut top = engine();
    let signature = vec![MOTION3_BEHAVIOR_ID, MANDATORY_END_BEHAVIOR_ID];
    let at = |x: f32| vec![StandardSpawnData::PosX(num(x))];
    top.add_danmaku(vec![descriptor(100, at(1.0), signature.clone())]);
    let mut above = top.bucket(0).columns().id(0);
    for (slot, x) in [(1usize, 2.0f32), (2, 4.0), (3, 8.0), (4, 16.0)] {
        let mut next = descriptor(100, at(x), signature.clone());
        next.parent = Some(above);
        assert!(top.add_danmaku(vec![next]).is_empty());
        above = top.bucket(0).columns().id(slot);
        assert_eq!(top.family_depth(above), Some(slot as i16));
    }
    let world = top.render_data(&Floats, num(1.0));
    let found: Vec<f32> = world.iter().map(|d| position(d).0).collect();
    assert_eq!(found.len(), 5);
    for (x, expected) in found.iter().zip([1.0f32, 3.0, 7.0, 15.0, 31.0]) {
        assert!(close(*x, expected));
    }
}

#[test]
fn default_handler_lays_out_single_lanes() {
    let mut top: Engine = TopDanmakuBehaviorsHandler::default();
    assert_eq!(top.bucket_count(), 0);
    assert_eq!(top.find_behavior(MOTION1_BEHAVIOR_ID), None);
    top.register_standard_behaviors(Floats);
    assert!(top.add_danmaku(vec![straight_shot()]).is_empty());
    assert_eq!(top.bucket(0).columns().widths(), LaneWidths::single());
    assert_eq!(top.bucket(0).columns().scalar_blocks(ScalarField::PosZ), 128);
    assert!(top.tick().is_empty());
}

#[test]
fn next_stages_of_every_signature_are_created_by_the_tick() {
    let mut top = engine();
    let mut first =
        descriptor(0, vec![], vec![MOTION1_BEHAVIOR_ID, MANDATORY_END_BEHAVIOR_ID]);
    first.next_stage = vec![
        descriptor(4, vec![], vec![GRAVITY3_BEHAVIOR_ID]),
        descriptor(5, vec![], vec![MOTION1_BEHAVIOR_ID, MANDATORY_END_BEHAVIOR_ID]),
    ];
    top.add_danmaku(vec![first]);
    let back = top.tick();
    assert!(back.is_empty());
    assert_eq!(top.bucket_count(), 2);
    assert_eq!(top.bucket(0).current_size(), 2);
    assert_eq!(top.bucket(0).columns().end_time(1), 5);
    assert_eq!(top.bucket(1).columns().end_time(0), 4);
}

#[test]
fn a_bucket_that_nothing_is_bound_for_keeps_its_size() {
    let mut top = engine();
    let mut dying =
        descriptor(1, vec![], vec![MOTION1_BEHAVIOR_ID, MANDATORY_END_BEHAVIOR_ID]);
    let mut successor =
        descriptor(9, vec![], vec![GRAVITY1_BEHAVIOR_ID, MANDATORY_END_BEHAVIOR_ID]);
    successor.children =
        vec![descriptor(9, vec![], vec![GRAVITY1_BEHAVIOR_ID, MANDATORY_END_BEHAVIOR_ID])];
    dying.next_stage = vec![successor];
    let staying = descriptor(9, vec![], vec![MOTION3_BEHAVIOR_ID, MANDATORY_END_BEHAVIOR_ID]);
    top.add_danmaku(vec![dying, staying]);
    assert_eq!(top.bucket_count(), 2);
    assert_eq!(top.bucket(0).current_size(), 1);
    assert_eq!(top.bucket(1).current_size(), 1);

    top.tick();
    top.tick();
    assert_eq!(top.bucket_count(), 3);
    assert_eq!(top.bucket(0).current_size(), 1);
    assert_eq!(top.bucket(0).current_max_size(), 128);
    assert_eq!(top.bucket(1).current_size(), 1);
    assert_eq!(top.bucket(1).current_max_size(), 128);
    assert_eq!(top.bucket(1).count(), 1);
    assert_eq!(top.bucket(2).current_size(), 2);
}
