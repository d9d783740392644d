use base64::Engine;
use tileworld::collision::CollisionResult;
use tileworld::position::{ChunkPos, Rect, WorldPos, v2};
use tileworld::tile::{Breakable, TileId, TilePhysicality};
use tileworld::tile_map::ChunkMap;

fn far_rect() -> Rect {
    Rect { x: 1_000_000, y: 1_000_000, w: 16, h: 16 }
}

#[test]
fn catalog_is_total_and_fixed() {
    let air = TileId::Air.val();
    assert_eq!(air.sprite, None);
    assert_eq!(air.name, "Air");
    assert_eq!(air.physicality, TilePhysicality::Empty);
    assert_eq!(air.breakable, Breakable::Indestructable);

    let dirt = TileId::Dirt.val();
    assert_eq!(dirt.sprite, Some(9));
    assert_eq!(dirt.name, "Dirt");
    assert_eq!(dirt.physicality, TilePhysicality::Solid);
    assert_eq!(dirt.breakable, Breakable::WithTime(1000));

    assert_eq!(TileId::WoodPlanks.val().physicality, TilePhysicality::Solid);
    assert_eq!(TileId::WoodLog.val().physicality, TilePhysicality::JumpThrough);
    assert_eq!(TileId::GenericOre.val().physicality, TilePhysicality::Solid);

    assert_eq!(TileId::Air.val().collision_result(), CollisionResult::Empty);
    assert_eq!(TileId::Dirt.val().collision_result(), CollisionResult::Solid);
    assert_eq!(TileId::WoodLog.val().collision_result(), CollisionResult::JumpThrough);
}

#[test]
fn chunk_generation_deterministic() {
    let mut m1 = ChunkMap::new();
    let mut m2 = ChunkMap::new();
    let p = ChunkPos(v2(5, 7));
    let c1 = m1.get(p).0.array.clone();
    let c2 = m2.get(p).0.array.clone();
    assert_eq!(c1, c2);
    // asking again, without intervening writes, gives the same tiles
    let c1_again = m1.get(p).0.array.clone();
    assert_eq!(c1, c1_again);
}

#[test]
fn chunk_row_tiers() {
    let mut m = ChunkMap::new();
    let surface = m.get(ChunkPos(v2(0, 0)));
    for y in 0..14u32 {
        for x in 0..16u32 {
            let t = *surface.0.get(x, y).unwrap();
            if y <= 7 {
                assert_eq!(t, TileId::Air);
            } else {
                assert_eq!(t, TileId::Dirt);
            }
        }
    }
    let below = m.get(ChunkPos(v2(3, 1)));
    for y in 0..14u32 {
        for x in 0..16u32 {
            assert_eq!(*below.0.get(x, y).unwrap(), TileId::Dirt);
        }
    }
    let above = m.get(ChunkPos(v2(-2, -1)));
    for y in 0..14u32 {
        for x in 0..16u32 {
            assert_eq!(*above.0.get(x, y).unwrap(), TileId::Air);
        }
    }
}

#[test]
fn placement_conflict_refused_edge_touch_allowed() {
    let mut m = ChunkMap::new();
    let body = Rect { x: 0, y: 0, w: 16, h: 16 };

    // the 16x16 footprint of (8, 8) is [0,16) x [0,16): overlaps the body
    let placed = m.place_tile(body, WorldPos(v2(8, 8)), TileId::Dirt);
    assert!(!placed);
    // the store is unchanged: the surface chunk still generates as fresh
    let mut fresh = ChunkMap::new();
    assert_eq!(
        m.get(ChunkPos(v2(0, 0))).0.array,
        fresh.get(ChunkPos(v2(0, 0))).0.array
    );

    // footprint [16,32) x [0,16) only touches the body's edge: legal
    let placed = m.place_tile(body, WorldPos(v2(18, 2)), TileId::Dirt);
    assert!(placed);
    assert_eq!(*m.get(ChunkPos(v2(0, 0))).0.get(1, 0).unwrap(), TileId::Dirt);
    // the neighbors of the written cell are untouched
    assert_eq!(*m.get(ChunkPos(v2(0, 0))).0.get(0, 0).unwrap(), TileId::Air);
    assert_eq!(*m.get(ChunkPos(v2(0, 0))).0.get(2, 0).unwrap(), TileId::Air);
}

#[test]
fn persistence_round_trip() {
    let mut m = ChunkMap::new();
    // materialize a few chunks and edit one tile
    let _ = m.get(ChunkPos(v2(-1, 0)));
    let _ = m.get(ChunkPos(v2(4, -3)));
    let placed = m.place_tile(far_rect(), WorldPos(v2(40, -200)), TileId::WoodLog);
    assert!(placed);
    m.focus = ChunkPos(v2(3, -2));

    let blob = m.save();
    let m2 = ChunkMap::load(&blob).expect("a saved store loads");

    assert_eq!(m2.focus, m.focus);
    assert_eq!(m2.tile_size, m.tile_size);
    assert_eq!(m2.chunk_size, m.chunk_size);
    assert_eq!(m2.tag, m.tag);
    assert_eq!(m2.store.len(), m.store.len());
    for i in 0..m.store.len() {
        assert_eq!(m2.store[i].0, m.store[i].0);
        assert_eq!(m2.store[i].1.0.array, m.store[i].1.0.array);
        assert_eq!(m2.store[i].1.0.width, m.store[i].1.0.width);
        assert_eq!(m2.store[i].1.0.height, m.store[i].1.0.height);
    }
}

#[test]
fn load_rejects_garbage() {
    assert!(ChunkMap::load("not base64 at all!").is_none());
    // valid base64 of bytes that are not a store blob
    let junk = base64::engine::general_purpose::STANDARD.encode(b"junk");
    assert!(ChunkMap::load(&junk).is_none());
    // an empty string is 0 bytes: shorter than any header
    assert!(ChunkMap::load("").is_none());
}

#[test]
fn save_blob_is_real_base64() {
    let m = ChunkMap::new();
    let s = m.save();
    // the blob decodes with a stock base64 engine and re-encodes to itself;
    // the raw bytes start with the store's tag byte
    let bytes = base64::engine::general_purpose::STANDARD
        .decode(&s)
        .expect("save emits standard base64");
    assert_eq!(base64::engine::general_purpose::STANDARD.encode(&bytes), s);
    assert_eq!(bytes[0], 0);
    // header: tag + focus (0, 0) + count 0
    assert_eq!(bytes.len(), 25);
    assert!(bytes[1..25].iter().all(|b| *b == 0));
}

#[test]
fn collide_samples_corners_and_strides() {
    let mut m = ChunkMap::new();
    // the sky is empty
    let sky = Rect { x: 10, y: -500, w: 10, h: 14 };
    assert_eq!(m.collide(sky), CollisionResult::Empty);
    // the ground (surface rows 8 and below) is solid
    let ground = Rect { x: 10, y: 16 * 8, w: 10, h: 10 };
    assert_eq!(m.collide(ground), CollisionResult::Solid);
    // a rectangle crossing into the negative neighbor chunk still reads air
    let crossing = Rect { x: -20, y: -20, w: 40, h: 10 };
    assert_eq!(m.collide(crossing), CollisionResult::Empty);

    // an interior solid tile caught only by an edge stride, not a corner:
    // tile footprint [0,16) x [-96,-80), rectangle corners on both sides
    let placed = m.place_tile(far_rect(), WorldPos(v2(8, -90)), TileId::Dirt);
    assert!(placed);
    let wide = Rect { x: -17, y: -90, w: 49, h: 4 };
    assert_eq!(m.collide(wide), CollisionResult::Solid);
    // the same rectangle shrunk to its corners only misses the tile
    let narrow = Rect { x: -17, y: -90, w: 4, h: 4 };
    assert_eq!(m.collide(narrow), CollisionResult::Empty);
}

#[test]
fn collide_reports_jump_through() {
    let mut m = ChunkMap::new();
    let placed = m.place_tile(far_rect(), WorldPos(v2(8, -90)), TileId::WoodLog);
    assert!(placed);
    let over = Rect { x: 2, y: -94, w: 8, h: 8 };
    assert_eq!(m.collide(over), CollisionResult::JumpThrough);
}

#[test]
fn chunks_around_covers_all_nine() {
    let mut m = ChunkMap::new();
    let nine = m.chunks_around(ChunkPos(v2(0, 0)));
    assert_eq!(nine.items.len(), 9);
    let offsets: Vec<(i8, i8)> = nine.items.iter().map(|e| e.0).collect();
    assert_eq!(
        offsets,
        vec![
            (-1, -1),
            (0, -1),
            (1, -1),
            (-1, 0),
            (0, 0),
            (1, 0),
            (-1, 1),
            (0, 1),
            (1, 1)
        ]
    );
    // the centre copy equals the stored chunk, the top row is all air
    let centre = &nine.items[4].1;
    assert_eq!(centre.0.array, m.get(ChunkPos(v2(0, 0))).0.array);
    assert!(nine.items[1].1.0.array.iter().all(|t| *t == TileId::Air));
    // around_focus is the same neighborhood at the focus
    m.focus = ChunkPos(v2(0, 0));
    let around = m.around_focus();
    assert_eq!(around.items.len(), 9);
    assert_eq!(around.items[4].1.0.array, nine.items[4].1.0.array);
    // focused returns the focus chunk itself
    let focus_tiles = m.focused().0.array.clone();
    assert_eq!(focus_tiles, m.get(ChunkPos(v2(0, 0))).0.array);
}

#[test]
fn focused_mut_edits_the_focus_chunk() {
    let mut m = ChunkMap::new();
    m.focus = ChunkPos(v2(2, -1));
    {
        let chunk = m.focused_mut();
        *chunk.0.get_mut(3, 4) = TileId::GenericOre;
    }
    assert_eq!(*m.get(ChunkPos(v2(2, -1))).0.get(3, 4).unwrap(), TileId::GenericOre);
    // a write through get_mut lands in the same cell the view reads
    {
        let chunk = m.get_mut(ChunkPos(v2(2, -1)));
        *chunk.0.get_mut(3, 4) = TileId::Air;
    }
    assert_eq!(*m.get(ChunkPos(v2(2, -1))).0.get(3, 4).unwrap(), TileId::Air);
}

#[test]
fn rect_from_origin_spans_the_vector() {
    let r = v2(7, 9).rect_from_origin();
    assert_eq!(r, Rect { x: 0, y: 0, w: 7, h: 9 });
}
