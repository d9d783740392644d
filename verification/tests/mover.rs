use tileworld::collision::CollisionResult;
use tileworld::physics::World;
use tileworld::position::{Rect, WorldPos, v2};
use tileworld::tile::TileId;

fn far_rect() -> Rect {
    Rect { x: 1_000_000, y: 1_000_000, w: 16, h: 16 }
}

/// A world with a one-way platform tile spanning [0,16) x [-96,-80).
fn world_with_platform() -> World {
    let mut w = World::new();
    let placed = w.map.place_tile(far_rect(), WorldPos(v2(8, -90)), TileId::WoodLog);
    assert!(placed);
    w
}

#[test]
fn store_world() {
    let world = World::new();

    let data = world.save();
    let restored = World::load(&data);

    assert!(restored.is_some());
}

#[test]
fn world_round_trip_keeps_chunks() {
    let mut world = World::new();
    let placed = world.map.place_tile(far_rect(), WorldPos(v2(40, 40)), TileId::GenericOre);
    assert!(placed);
    let restored = World::load(&world.save()).expect("a saved world loads");
    assert_eq!(restored.map.store.len(), world.map.store.len());
    assert_eq!(restored.map.store[0].0, world.map.store[0].0);
    assert_eq!(restored.map.store[0].1.0.array, world.map.store[0].1.0.array);
    assert!(restored.actors.is_empty());
    assert!(restored.solids.is_empty());
}

#[test]
fn or_combine_rule() {
    let (empty, solid, jt, collider) = (
        CollisionResult::Empty,
        CollisionResult::Solid,
        CollisionResult::JumpThrough,
        CollisionResult::Collider,
    );
    assert_eq!(empty.or(empty), empty);
    assert_eq!(jt.or(jt), jt);
    assert_eq!(jt.or(empty), jt);
    assert_eq!(empty.or(jt), jt);
    assert_eq!(solid.or(empty), solid);
    assert_eq!(empty.or(solid), solid);
    assert_eq!(solid.or(jt), solid);
    assert_eq!(collider.or(empty), solid);
    assert_eq!(empty.or(collider), solid);
    assert_eq!(solid.or(solid), solid);

    let all = [empty, solid, jt, collider];
    for a in all {
        for b in all {
            assert_eq!(a.or(b), b.or(a));
            for c in all {
                assert_eq!(a.or(b).or(c), a.or(b.or(c)));
            }
        }
    }
}

#[test]
fn mover_fractional_accumulation() {
    // open sky: chunk rows below -1 are all air
    let mut w = World::new();
    let a = w.add_actor(v2(0, -1000), 10, 14);
    for _ in 0..6 {
        // 0.3 of a pixel per call, in thousandths
        let moved = w.move_h(a, 300);
        assert!(moved);
    }
    // round(6 * 0.3) = 2 whole pixels, not 6 * round(0.3) = 0
    assert_eq!(w.actor_pos(a), v2(2, -1000));
}

#[test]
fn mover_fraction_carries_across_signs() {
    let mut w = World::new();
    let a = w.add_actor(v2(0, -1000), 10, 14);
    assert!(w.move_v(a, 2500));
    assert_eq!(w.actor_pos(a).y, -997); // round(2.5) = 3, away from zero
    assert!(w.move_v(a, -500));
    assert_eq!(w.actor_pos(a).y, -998); // -0.5 - 0.5 = -1
}

#[test]
fn jump_through_descent() {
    let mut w = world_with_platform();
    let a = w.add_actor(v2(0, -110), 10, 14);
    assert!(!w.actors[a.0].1.descent);
    assert!(!w.actors[a.0].1.seen_wood);

    // a 1-pixel-down probe hits the platform and blocks while not descending
    assert!(w.collide_check(a, v2(0, -109)));

    // moving down onto the platform is blocked
    assert!(!w.move_v(a, 1000));
    assert_eq!(w.actor_pos(a), v2(0, -110));

    // engage descent: the same probe no longer blocks, the move commits
    w.descent(a);
    assert!(!w.collide_check(a, v2(0, -109)));
    assert!(w.move_v(a, 1000));
    assert_eq!(w.actor_pos(a), v2(0, -109));
    assert!(w.actors[a.0].1.descent);
    assert!(w.actors[a.0].1.seen_wood);

    // still overlapping the platform after 16 more pixels: flags stay
    assert!(w.move_v(a, 16000));
    assert_eq!(w.actor_pos(a), v2(0, -93));
    assert!(w.actors[a.0].1.descent);
    assert!(w.actors[a.0].1.seen_wood);

    // fully below the platform: both flags clear
    assert!(w.move_v(a, 16000));
    assert_eq!(w.actor_pos(a), v2(0, -77));
    assert!(!w.actors[a.0].1.descent);
    assert!(!w.actors[a.0].1.seen_wood);
}

#[test]
fn jump_through_from_below_grants_passage() {
    let mut w = world_with_platform();
    // an actor below the platform moving up is granted passage and engages
    // descent for later downward passage
    let a = w.add_actor(v2(0, -70), 10, 14);
    assert!(w.move_v(a, -20000));
    assert_eq!(w.actor_pos(a), v2(0, -90));
    assert!(w.actors[a.0].1.descent);
    assert!(w.actors[a.0].1.seen_wood);
}

#[test]
fn horizontal_passage_through_platform() {
    let mut w = world_with_platform();
    // sideways movement through a one-way platform is always allowed and
    // engages both flags
    let a = w.add_actor(v2(-20, -90), 10, 8);
    assert!(w.move_h(a, 15000));
    assert_eq!(w.actor_pos(a), v2(-5, -90));
    assert!(w.actors[a.0].1.descent);
    assert!(w.actors[a.0].1.seen_wood);
}

#[test]
fn spawning_on_platform_engages_descent() {
    let mut w = world_with_platform();
    let a = w.add_actor(v2(0, -90), 10, 8);
    assert!(w.actors[a.0].1.descent);
    assert!(w.actors[a.0].1.seen_wood);
}

#[test]
fn mover_blocked_by_ground() {
    let mut w = World::new();
    // surface chunk: rows 8.. are dirt, so ground starts at world y = 128
    let a = w.add_actor(v2(100, 100), 10, 14);
    // falling: 128 - 14 = 114 is the resting top
    assert!(!w.move_v(a, 100_000));
    assert_eq!(w.actor_pos(a), v2(100, 114));
    // walking along the ground works
    assert!(w.move_h(a, 5000));
    assert_eq!(w.actor_pos(a), v2(105, 114));
    // a probe one pixel down reports blocked: standing on ground
    assert!(w.collide_check(a, v2(105, 115)));
    assert!(!w.collide_check(a, v2(105, 113)));
}

#[test]
fn actor_blocked_by_solid_and_pushed() {
    let mut w = World::new();
    let a = w.add_actor(v2(0, -1000), 10, 14);
    let s = w.add_solid(v2(20, -1005), 16, 30);

    // walking right stops flush against the solid
    assert!(!w.move_h(a, 20_000));
    assert_eq!(w.actor_pos(a), v2(10, -1000));

    // the solid moving left pushes the actor along
    w.solid_move(s, -5_000, 0);
    assert_eq!(w.solid_pos(s), v2(15, -1005));
    assert_eq!(w.actor_pos(a), v2(5, -1000));
    assert!(!w.squished(a));
}

#[test]
fn solid_squishes_actor_against_wall() {
    let mut w = World::new();
    let a = w.add_actor(v2(10, -1000), 10, 14);
    let wall = w.add_solid(v2(-16, -1010), 16, 40);
    let s = w.add_solid(v2(20, -1005), 16, 30);
    let _ = wall;

    // the solid moves 20 px left; the actor can only give 10 px
    w.solid_move(s, -20_000, 0);
    assert_eq!(w.actor_pos(a), v2(0, -1000));
    assert!(w.squished(a));

    // once the solid moves back off the actor, the squish clears
    w.solid_move(s, 20_000, 0);
    assert!(!w.squished(a));
}

#[test]
fn solid_carries_riding_actor() {
    let mut w = World::new();
    let s = w.add_solid(v2(100, -986), 16, 16);
    let a = w.add_actor(v2(103, -1000), 10, 14);
    w.solid_move(s, 3_000, 0);
    assert_eq!(w.solid_pos(s), v2(103, -986));
    assert_eq!(w.actor_pos(a), v2(106, -1000));
}

#[test]
fn solid_move_accumulates_fractions() {
    let mut w = World::new();
    let s = w.add_solid(v2(0, -1000), 16, 16);
    w.solid_move(s, 300, 700);
    assert_eq!(w.solid_pos(s), v2(0, -999)); // 0.3 -> 0; 0.7 -> 1
    w.solid_move(s, 300, 700);
    assert_eq!(w.solid_pos(s), v2(1, -999)); // 0.6 -> 1; 0.4 -> 0
}

#[test]
fn set_position_drops_remainders() {
    let mut w = World::new();
    let a = w.add_actor(v2(0, -1000), 10, 14);
    assert!(w.move_h(a, 400));
    assert_eq!(w.actor_pos(a).x, 0);
    w.set_actor_position(a, v2(50, -900));
    assert_eq!(w.actor_pos(a), v2(50, -900));
    // the dropped 0.4 px remainder no longer contributes
    assert!(w.move_h(a, 300));
    assert_eq!(w.actor_pos(a).x, 50);
}

#[test]
fn collide_solids_sees_tiles_first() {
    let mut w = World::new();
    let _s = w.add_solid(v2(0, 128), 16, 16);
    // the ground there is already solid tile: tiles answer first
    assert_eq!(w.collide_solids(v2(0, 128), 8, 8), CollisionResult::Solid);
    // a solid floating in the sky answers as a dynamic collider
    let _f = w.add_solid(v2(0, -1000), 16, 16);
    assert_eq!(w.collide_solids(v2(4, -998), 8, 8), CollisionResult::Collider);
    assert_eq!(w.solid_at(v2(0, 0)), true);
    assert_eq!(w.tag_at(v2(0, 0), 1), true);
}

#[test]
fn collide_tag_reads_the_tile_layer() {
    let mut w = World::new();
    assert_eq!(w.collide_tag(1, v2(0, -500), 8, 8), CollisionResult::Empty);
    assert_eq!(w.collide_tag(1, v2(0, 128), 8, 8), CollisionResult::Solid);
}
