use tileworld::position::{Camera, ChunkPos, Rect, ScreenPos, TilePos, Vec2i, WorldPos, v2};
use tileworld::tile_map::wrap_around_vec_in_rect;
use tileworld::grid::Grid;
use tileworld::intmath::{div_floor_i64, wrap_i64};

#[test]
fn wraparound() {
    let rect = Rect { x: 0, y: 0, w: 10, h: 10 };

    assert_eq!(wrap_around_vec_in_rect(rect, v2(0, 0)), v2(0, 0));
    assert_eq!(wrap_around_vec_in_rect(rect, v2(9, 9)), v2(9, 9));
    assert_eq!(wrap_around_vec_in_rect(rect, v2(-1, -1)), v2(9, 9));
    assert_eq!(wrap_around_vec_in_rect(rect, v2(10, 10)), v2(0, 0));
}

#[test]
fn wraparound_is_periodic() {
    let rect = Rect { x: 0, y: 0, w: 10, h: 10 };
    for k in -3i64..=3 {
        for m in -3i64..=3 {
            let v = v2(4, 7);
            let shifted = v2(v.x + k * 10, v.y + m * 10);
            assert_eq!(
                wrap_around_vec_in_rect(rect, shifted),
                wrap_around_vec_in_rect(rect, v)
            );
        }
    }
    // and the result always lands inside the rectangle
    for x in -25i64..25 {
        let w = wrap_i64(x, 10);
        assert!(0 <= w && w < 10);
    }
}

#[test]
fn floor_division_rounds_down() {
    assert_eq!(div_floor_i64(0, 16), 0);
    assert_eq!(div_floor_i64(15, 16), 0);
    assert_eq!(div_floor_i64(16, 16), 1);
    assert_eq!(div_floor_i64(-1, 16), -1);
    assert_eq!(div_floor_i64(-16, 16), -1);
    assert_eq!(div_floor_i64(-17, 16), -2);
}

#[test]
fn world_to_tile_and_back() {
    assert_eq!(WorldPos(v2(-1, -1)).to_tile(), TilePos(v2(-1, -1)));
    assert_eq!(WorldPos(v2(0, 0)).to_tile(), TilePos(v2(0, 0)));
    assert_eq!(WorldPos(v2(31, 15)).to_tile(), TilePos(v2(1, 0)));
    assert_eq!(TilePos(v2(-1, 2)).to_world(), WorldPos(v2(-16, 32)));
    assert_eq!(WorldPos(v2(-1, 17)).snap(), WorldPos(v2(-16, 16)));
}

#[test]
fn world_to_chunk_floors() {
    assert_eq!(WorldPos(v2(0, 0)).to_chunk(), ChunkPos(v2(0, 0)));
    assert_eq!(WorldPos(v2(255, 223)).to_chunk(), ChunkPos(v2(0, 0)));
    assert_eq!(WorldPos(v2(256, 224)).to_chunk(), ChunkPos(v2(1, 1)));
    assert_eq!(WorldPos(v2(-1, -1)).to_chunk(), ChunkPos(v2(-1, -1)));
}

#[test]
fn screen_to_world_uses_camera_target() {
    let camera = Camera { target: v2(1000, 2000) };
    let p = ScreenPos(v2(128, 112)).to_world(&camera);
    // the centre of the virtual screen maps to the camera target
    assert_eq!(p, WorldPos(v2(1000, 2000)));
    let corner = ScreenPos(v2(0, 0)).to_world(&camera);
    assert_eq!(corner, WorldPos(v2(1000 - 128, 2000 - 112)));
    assert_eq!(ScreenPos(v2(128, 112)).to_tile(&camera), TilePos(v2(62, 125)));
    assert_eq!(ScreenPos::screen(), ScreenPos(v2(256, 224)));
    assert_eq!(ScreenPos::screen_rect(), Rect { x: 0, y: 0, w: 256, h: 224 });
    assert_eq!(Rect::from_vecs(v2(1, 2), v2(3, 4)), Rect { x: 1, y: 2, w: 3, h: 4 });
}

#[test]
fn grid_fills_each_cell_from_its_coordinate() {
    let g: Grid<u32> = Grid::new_filled(3, 2, |x, y| x + 10 * y, 0);
    assert_eq!(g.width, 3);
    assert_eq!(g.height, 2);
    assert_eq!(g.array, vec![0, 1, 2, 10, 11, 12]);
    assert_eq!(g.get(2, 1), Some(&12));
    assert_eq!(g.get(3, 1), None);
    assert_eq!(g.get(0, 2), None);
}

#[test]
fn grid_get_mut_writes_one_cell() {
    let mut g: Grid<u32> = Grid::new_filled(3, 2, |x, y| x + 10 * y, 0);
    *g.get_mut(1, 1) = 99;
    assert_eq!(g.array, vec![0, 1, 2, 10, 99, 12]);
}

#[test]
fn grid_for_each_immut_visits_row_major() {
    let g: Grid<u32> = Grid::new_filled(2, 2, |x, y| x + 10 * y, 0);
    let seen: std::cell::RefCell<Vec<(u32, u32, u32)>> = std::cell::RefCell::new(Vec::new());
    g.for_each_immut(|x, y, t| {
        seen.borrow_mut().push((x, y, t));
    });
    assert_eq!(
        seen.into_inner(),
        vec![(0, 0, 0), (1, 0, 1), (0, 1, 10), (1, 1, 11)]
    );
}
