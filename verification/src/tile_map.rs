//! The chunked world store: a sparse mapping from chunk position to
//! materialized chunk. Absent entries mean "not yet generated"; a chunk is
//! generated deterministically from its row on first access and from then on
//! only changed by explicit writes, never regenerated.

use vstd::prelude::*;
use vstd::arithmetic::div_mod::lemma_fundamental_div_mod;
use crate::{in_world_range, CHUNK_TILES_X, CHUNK_TILES_Y, TILE_SIZE, VIRTUAL_WIDTH, VIRTUAL_HEIGHT};
use crate::collision::{spec_or, CollisionResult};
use crate::grid::{grid_index, Grid};
use crate::intmath::{div_mod_floor, wrap_i64, lemma_wrap_periodic};
use crate::position::{ChunkPos, Rect, Vec2i, WorldPos};
use crate::tile::{spec_tile_collision, TileId};

verus! {

/// Tiles per chunk: 16 x 14 cells, one virtual screen at 16 px per tile.
pub open spec fn chunk_cell_count() -> int {
    CHUNK_TILES_X as int * CHUNK_TILES_Y as int
}

/// The procedural row-tier rule: chunk row 0 is the surface (sky above
/// local tile row 7, dirt at row 8 and below), rows below the surface are
/// solid dirt, rows above are open air.
pub open spec fn spec_gen_tile(chunk_row: int, tile_row: int) -> TileId {
    if chunk_row == 0 {
        if tile_row > 7 {
            TileId::Dirt
        } else {
            TileId::Air
        }
    } else if chunk_row >= 1 {
        TileId::Dirt
    } else {
        TileId::Air
    }
}

/// Contents of a freshly generated chunk at the given chunk row, row-major.
pub open spec fn spec_gen_chunk(chunk_row: int) -> Seq<TileId> {
    Seq::new(chunk_cell_count() as nat, |i: int| spec_gen_tile(chunk_row, i / (CHUNK_TILES_X as int)))
}

/// One materialized chunk: a dense grid of tile identifiers.
#[derive(Debug, Clone)]
pub struct Chunk(pub Grid<TileId>);

impl Chunk {
    /// The grid has exactly the fixed chunk extent.
    pub open spec fn wf(self) -> bool {
        &&& self.0.wf()
        &&& self.0.width == CHUNK_TILES_X as usize
        &&& self.0.height == CHUNK_TILES_Y as usize
    }

    /// The tiles, row-major.
    pub open spec fn contents(self) -> Seq<TileId> {
        self.0.array@
    }
}

/// A 3x3 neighborhood of values, each tagged with its offset from the
/// center, both components in `{-1, 0, 1}`.
pub struct NineOf<T> {
    pub items: Vec<((i8, i8), T)>,
}

/// The sparse chunk store, plus the focus chunk and the world's size
/// constants.
#[derive(Debug)]
pub struct ChunkMap {
    pub store: Vec<(ChunkPos, Chunk)>,
    pub focus: ChunkPos,
    pub tile_size: Vec2i,
    pub chunk_size: Vec2i,
    pub tag: u8,
}

impl ChunkMap {
    /// A chunk at `(cx, cy)` has been materialized.
    pub open spec fn spec_has_chunk(self, cx: int, cy: int) -> bool {
        exists|i: int|
            0 <= i < self.store@.len() && (#[trigger] self.store@[i]).0.0.x == cx
                && self.store@[i].0.0.y == cy
    }

    /// Index of the materialized chunk at `(cx, cy)` in the store.
    pub open spec fn spec_chunk_index(self, cx: int, cy: int) -> int {
        choose|i: int|
            0 <= i < self.store@.len() && (#[trigger] self.store@[i]).0.0.x == cx
                && self.store@[i].0.0.y == cy
    }

    /// The tiles the world presents at chunk `(cx, cy)`: the stored tiles if
    /// the chunk is materialized, otherwise what generation would produce.
    /// Materializing a chunk never changes this view.
    pub open spec fn spec_chunk_view(self, cx: int, cy: int) -> Seq<TileId> {
        if self.spec_has_chunk(cx, cy) {
            self.store@[self.spec_chunk_index(cx, cy)].1.contents()
        } else {
            spec_gen_chunk(cy)
        }
    }

    /// The whole world as a total map from chunk position to tiles.
    pub open spec fn world_view(self) -> Map<(int, int), Seq<TileId>> {
        Map::new(|k: (int, int)| true, |k: (int, int)| self.spec_chunk_view(k.0, k.1))
    }

    /// Store invariant: the size constants hold their fixed values, every
    /// stored chunk has the right extent, and no chunk position is stored
    /// twice.
    pub open spec fn wf(self) -> bool {
        &&& self.tile_size == (Vec2i { x: TILE_SIZE, y: TILE_SIZE })
        &&& self.chunk_size == (Vec2i { x: CHUNK_TILES_X, y: CHUNK_TILES_Y })
        &&& forall|i: int| 0 <= i < self.store@.len() ==> (#[trigger] self.store@[i]).1.wf()
        &&& forall|i: int, j: int|
            0 <= i < j < self.store@.len() ==> (#[trigger] self.store@[i]).0 != (
            #[trigger] self.store@[j]).0
    }

    /// Number of materialized chunks.
    pub open spec fn spec_store_len(self) -> int {
        self.store@.len() as int
    }
}

/// In a store without duplicate keys, the entry at index `i` is the one the
/// view functions pick for its position.
proof fn lemma_store_index(m: ChunkMap, i: int)
    requires
        m.wf(),
        0 <= i < m.store@.len(),
    ensures
        m.spec_has_chunk(m.store@[i].0.0.x as int, m.store@[i].0.0.y as int),
        m.spec_chunk_index(m.store@[i].0.0.x as int, m.store@[i].0.0.y as int) == i,
        m.spec_chunk_view(m.store@[i].0.0.x as int, m.store@[i].0.0.y as int)
            == m.store@[i].1.contents(),
{
    let cx = m.store@[i].0.0.x as int;
    let cy = m.store@[i].0.0.y as int;
    assert(m.spec_has_chunk(cx, cy));
    let j = m.spec_chunk_index(cx, cy);
    if i != j {
        assert(m.store@[i].0 == m.store@[j].0);
    }
}

impl ChunkMap {
    /// A fresh store: nothing materialized, focus at the origin, the fixed
    /// size constants, tag zero.
    pub fn new() -> (r: ChunkMap)
        ensures
            r.wf(),
            r.spec_store_len() == 0,
            r.focus == (ChunkPos(Vec2i { x: 0, y: 0 })),
            r.tag == 0,
            forall|cx: int, cy: int| !r.spec_has_chunk(cx, cy),
    {
        ChunkMap {
            store: Vec::new(),
            focus: ChunkPos(Vec2i { x: 0, y: 0 }),
            tile_size: Vec2i { x: TILE_SIZE, y: TILE_SIZE },
            chunk_size: Vec2i { x: CHUNK_TILES_X, y: CHUNK_TILES_Y },
            tag: 0,
        }
    }

    /// Index of `chunk_index` in the store, if it is materialized.
    fn find(&self, chunk_index: ChunkPos) -> (r: Option<usize>)
        requires
            self.wf(),
        ensures
            match r {
                Some(i) => i < self.store@.len() && self.store@[i as int].0 == chunk_index,
                None => !self.spec_has_chunk(chunk_index.0.x as int, chunk_index.0.y as int),
            },
    {
        let n = self.store.len();
        let mut i: usize = 0;
        while i < n
            invariant
                i <= n,
                n == self.store@.len(),
                self.wf(),
                forall|j: int| 0 <= j < i ==> (#[trigger] self.store@[j]).0 != chunk_index,
            decreases n - i,
        {
            if self.store[i].0 == chunk_index {
                return Some(i);
            }
            i = i + 1;
        }
        None
    }

    /// Materialize (if needed) and mutably borrow the chunk at
    /// `chunk_index`. Generation follows the row-tier rule and happens at
    /// most once per position: a stored chunk is returned as it is.
    pub fn get_mut(&mut self, chunk_index: ChunkPos) -> (c: &mut Chunk)
        requires
            old(self).wf(),
        ensures
            (*c).wf(),
            (*c).contents() == old(self).spec_chunk_view(
                chunk_index.0.x as int,
                chunk_index.0.y as int,
            ),
            final(self).focus == old(self).focus,
            final(self).tile_size == old(self).tile_size,
            final(self).chunk_size == old(self).chunk_size,
            final(self).tag == old(self).tag,
            final(self).spec_has_chunk(chunk_index.0.x as int, chunk_index.0.y as int),
            final(self).spec_chunk_view(chunk_index.0.x as int, chunk_index.0.y as int)
                == (*final(c)).contents(),
            forall|dx: int, dy: int|
                !(dx == chunk_index.0.x as int && dy == chunk_index.0.y as int)
                    ==> #[trigger] final(self).spec_chunk_view(dx, dy) == old(
                    self,
                ).spec_chunk_view(dx, dy),
            forall|dx: int, dy: int|
                !(dx == chunk_index.0.x as int && dy == chunk_index.0.y as int)
                    ==> #[trigger] final(self).spec_has_chunk(dx, dy) == old(
                    self,
                ).spec_has_chunk(dx, dy),
            (*final(c)).wf() ==> final(self).wf(),
            old(self).spec_has_chunk(chunk_index.0.x as int, chunk_index.0.y as int)
                ==> final(self).spec_store_len() == old(self).spec_store_len(),
            !old(self).spec_has_chunk(chunk_index.0.x as int, chunk_index.0.y as int)
                ==> final(self).spec_store_len() == old(self).spec_store_len() + 1,
    {
        let found = self.find(chunk_index);
        let i: usize = match found {
            Some(i) => {
                proof {
                    lemma_store_index(*self, i as int);
                }
                i
            },
            None => {
                let chunk = generate_chunk(chunk_index.0.y);
                self.store.push((chunk_index, chunk));
                let i = self.store.len() - 1;
                proof {
                    assert forall|k: int, l: int| 0 <= k < l < self.store@.len() implies (
                    #[trigger] self.store@[k]).0 != (#[trigger] self.store@[l]).0 by {
                        if l < self.store@.len() - 1 {
                            assert(old(self).store@[k].0 != old(self).store@[l].0);
                        } else {
                            lemma_store_index(*old(self), k);
                        }
                    }
                    assert(self.wf());
                    lemma_store_index(*self, i as int);
                    lemma_push_preserves(*old(self), *self);
                    assert(old(self).spec_chunk_view(
                        chunk_index.0.x as int,
                        chunk_index.0.y as int,
                    ) =~= spec_gen_chunk(chunk_index.0.y as int));
                }
                i
            },
        };
        let ghost pre = *self;
        let c = &mut self.store[i].1;
        proof {
            lemma_get_mut_preserves(pre, after_borrow(*self), i as int, *final(c));
        }
        c
    }

    /// Materialize (if needed) and borrow the chunk at `chunk_index`; the
    /// world's tiles are unchanged.
    pub fn get(&mut self, chunk_index: ChunkPos) -> (c: &Chunk)
        requires
            old(self).wf(),
        ensures
            final(self).wf(),
            (*c).wf(),
            (*c).contents() == old(self).spec_chunk_view(
                chunk_index.0.x as int,
                chunk_index.0.y as int,
            ),
            final(self).focus == old(self).focus,
            final(self).tile_size == old(self).tile_size,
            final(self).chunk_size == old(self).chunk_size,
            final(self).tag == old(self).tag,
            final(self).spec_has_chunk(chunk_index.0.x as int, chunk_index.0.y as int),
            forall|dx: int, dy: int|
                #[trigger] final(self).spec_chunk_view(dx, dy) == old(self).spec_chunk_view(dx, dy),
            forall|dx: int, dy: int|
                old(self).spec_has_chunk(dx, dy) ==> final(self).spec_has_chunk(dx, dy),
    {
        // materialize first, then hand out a shared borrow of the stored chunk
        let _ = self.get_mut(chunk_index);
        match self.find(chunk_index) {
            Some(i) => {
                proof {
                    lemma_store_index(*self, i as int);
                }
                &self.store[i].1
            },
            None => {
                proof {
                    assert(false);
                }
                unreached()
            },
        }
    }

    /// The chunk the focus is on.
    pub fn focused(&mut self) -> (c: &Chunk)
        requires
            old(self).wf(),
        ensures
            final(self).wf(),
            (*c).wf(),
            (*c).contents() == old(self).spec_chunk_view(
                old(self).focus.0.x as int,
                old(self).focus.0.y as int,
            ),
            final(self).focus == old(self).focus,
            final(self).tag == old(self).tag,
            forall|dx: int, dy: int|
                #[trigger] final(self).spec_chunk_view(dx, dy) == old(self).spec_chunk_view(dx, dy),
    {
        let focus = self.focus;
        self.get(focus)
    }

    /// The chunk the focus is on, mutably.
    pub fn focused_mut(&mut self) -> (c: &mut Chunk)
        requires
            old(self).wf(),
        ensures
            (*c).wf(),
            (*c).contents() == old(self).spec_chunk_view(
                old(self).focus.0.x as int,
                old(self).focus.0.y as int,
            ),
            final(self).focus == old(self).focus,
            final(self).tag == old(self).tag,
            final(self).spec_chunk_view(old(self).focus.0.x as int, old(self).focus.0.y as int)
                == (*final(c)).contents(),
            forall|dx: int, dy: int|
                !(dx == old(self).focus.0.x as int && dy == old(self).focus.0.y as int)
                    ==> #[trigger] final(self).spec_chunk_view(dx, dy) == old(
                    self,
                ).spec_chunk_view(dx, dy),
            (*final(c)).wf() ==> final(self).wf(),
    {
        let focus = self.focus;
        self.get_mut(focus)
    }
}

impl Default for ChunkMap {
    /// Same as [`ChunkMap::new`].
    fn default() -> (r: ChunkMap)
        ensures
            r.wf(),
            r.spec_store_len() == 0,
            r.focus == (ChunkPos(Vec2i { x: 0, y: 0 })),
            r.tag == 0,
            forall|cx: int, cy: int| !r.spec_has_chunk(cx, cy),
    {
        ChunkMap::new()
    }
}

/// Build the generated chunk for the given chunk row.
fn generate_chunk(chunk_row: i64) -> (c: Chunk)
    ensures
        c.wf(),
        c.contents() == spec_gen_chunk(chunk_row as int),
{
    let row = chunk_row;
    let setter = |x: u32, ty: u32| -> (t: TileId)
        ensures
            t == spec_gen_tile(row as int, ty as int),
        {
            if row == 0 {
                if ty > 7 {
                    TileId::Dirt
                } else {
                    TileId::Air
                }
            } else if row >= 1 {
                TileId::Dirt
            } else {
                TileId::Air
            }
        };
    let grid = Grid::new_filled(
        CHUNK_TILES_X as usize,
        CHUNK_TILES_Y as usize,
        setter,
        TileId::Air,
    );
    proof {
        assert forall|i: int| 0 <= i < chunk_cell_count() implies grid.array@[i]
            == spec_gen_tile(row as int, i / (CHUNK_TILES_X as int)) by {
            let x = i % (CHUNK_TILES_X as int);
            let y = i / (CHUNK_TILES_X as int);
            lemma_fundamental_div_mod(i, CHUNK_TILES_X as int);
            vstd::arithmetic::div_mod::lemma_mod_bound(i, CHUNK_TILES_X as int);
            assert(0 <= y < CHUNK_TILES_Y as int) by (nonlinear_arith)
                requires
                    i == CHUNK_TILES_X as int * y + x,
                    0 <= x < CHUNK_TILES_X as int,
                    0 <= i < CHUNK_TILES_X as int * CHUNK_TILES_Y as int,
            ;
            assert(grid_index(CHUNK_TILES_X as int, x, y) == i);
            assert(grid.spec_cell(x, y) == grid.array@[i]);
        }
        assert(grid.array@ =~= spec_gen_chunk(chunk_row as int));
    }
    Chunk(grid)
}

/// After mutably borrowing the chunk at store index `i`, every other chunk
/// position presents the same view, and the borrowed position presents the
/// borrowed chunk.
proof fn lemma_get_mut_preserves(pre: ChunkMap, post: ChunkMap, i: int, c: Chunk)
    requires
        pre.wf(),
        0 <= i < pre.store@.len(),
        post.store@ == pre.store@.update(i, (pre.store@[i].0, c)),
        post.focus == pre.focus,
        post.tile_size == pre.tile_size,
        post.chunk_size == pre.chunk_size,
        post.tag == pre.tag,
    ensures
        post.spec_has_chunk(pre.store@[i].0.0.x as int, pre.store@[i].0.0.y as int),
        post.spec_chunk_view(pre.store@[i].0.0.x as int, pre.store@[i].0.0.y as int)
            == c.contents(),
        forall|dx: int, dy: int|
            !(dx == pre.store@[i].0.0.x as int && dy == pre.store@[i].0.0.y as int)
                ==> #[trigger] post.spec_chunk_view(dx, dy) == pre.spec_chunk_view(dx, dy),
        forall|dx: int, dy: int|
            !(dx == pre.store@[i].0.0.x as int && dy == pre.store@[i].0.0.y as int)
                ==> #[trigger] post.spec_has_chunk(dx, dy) == pre.spec_has_chunk(dx, dy),
        c.wf() ==> post.wf(),
        post.spec_store_len() == pre.spec_store_len(),
{
    let cx = pre.store@[i].0.0.x as int;
    let cy = pre.store@[i].0.0.y as int;
    assert(post.store@[i].0 == pre.store@[i].0);
    assert forall|k: int, l: int| 0 <= k < l < post.store@.len() implies (
    #[trigger] post.store@[k]).0 != (#[trigger] post.store@[l]).0 by {
        assert(pre.store@[k].0 != pre.store@[l].0);
    }
    assert(post.spec_has_chunk(cx, cy));
    if post.spec_chunk_index(cx, cy) != i {
        let j = post.spec_chunk_index(cx, cy);
        assert(post.store@[j].0 == post.store@[i].0);
    }
    assert forall|dx: int, dy: int| !(dx == cx && dy == cy)
        implies #[trigger] post.spec_has_chunk(dx, dy) == pre.spec_has_chunk(dx, dy) by {
        if pre.spec_has_chunk(dx, dy) {
            let j = pre.spec_chunk_index(dx, dy);
            assert(post.store@[j].0.0.x as int == dx && post.store@[j].0.0.y as int == dy);
            assert(post.spec_has_chunk(dx, dy));
        }
        if post.spec_has_chunk(dx, dy) {
            let j = post.spec_chunk_index(dx, dy);
            assert(j != i);
            assert(pre.store@[j].0.0.x as int == dx && pre.store@[j].0.0.y as int == dy);
            assert(pre.spec_has_chunk(dx, dy));
        }
    }
    assert forall|dx: int, dy: int| !(dx == cx && dy == cy)
        implies #[trigger] post.spec_chunk_view(dx, dy) == pre.spec_chunk_view(dx, dy) by {
        assert(post.spec_has_chunk(dx, dy) == pre.spec_has_chunk(dx, dy));
        if post.spec_has_chunk(dx, dy) {
            let jpost = post.spec_chunk_index(dx, dy);
            let jpre = pre.spec_chunk_index(dx, dy);
            assert(jpost != i);
            assert(pre.store@[jpost].0.0.x as int == dx && pre.store@[jpost].0.0.y as int == dy);
            if jpre != jpost {
                assert(pre.store@[jpre].0 == pre.store@[jpost].0);
            }
            assert(post.spec_chunk_view(dx, dy) == pre.spec_chunk_view(dx, dy));
        }
    }
    if c.wf() {
        assert forall|k: int| 0 <= k < post.store@.len() implies (
        #[trigger] post.store@[k]).1.wf() by {
            if k != i {
                assert(pre.store@[k].1.wf());
            }
        }
    }
}

/// Row-major index, within its chunk, of the tile containing the world
/// point `(wx, wy)`: wrap into chunk-local pixels, then divide by the tile
/// size.
pub open spec fn tile_index_of(wx: int, wy: int) -> int {
    ((wy % (VIRTUAL_HEIGHT as int)) / (TILE_SIZE as int)) * (CHUNK_TILES_X as int) + (wx % (
    VIRTUAL_WIDTH as int)) / (TILE_SIZE as int)
}

/// The tile at world point `(wx, wy)` under a world view.
pub open spec fn spec_world_tile(w: Map<(int, int), Seq<TileId>>, wx: int, wy: int) -> TileId {
    w[(wx / (VIRTUAL_WIDTH as int), wy / (VIRTUAL_HEIGHT as int))][tile_index_of(wx, wy)]
}

/// The collision class of the tile at world point `(wx, wy)`.
pub open spec fn spec_class_at(w: Map<(int, int), Seq<TileId>>, wx: int, wy: int) -> CollisionResult {
    spec_tile_collision(spec_world_tile(w, wx, wy))
}

/// Combined class of the four corners of `rect`, in query order: top-left,
/// top-right, bottom-right, bottom-left.
pub open spec fn spec_corner_class(w: Map<(int, int), Seq<TileId>>, rect: Rect) -> CollisionResult {
    spec_or(
        spec_or(
            spec_or(
                spec_class_at(w, rect.x as int, rect.y as int),
                spec_class_at(w, rect.x + rect.w - 1, rect.y as int),
            ),
            spec_class_at(w, rect.x + rect.w - 1, rect.y + rect.h - 1),
        ),
        spec_class_at(w, rect.x as int, rect.y + rect.h - 1),
    )
}

/// `(px, py)` is an interior sample on the top or bottom edge of `rect`: a
/// whole number of tile strides past the left edge, strictly before the
/// right corner column.
pub open spec fn spec_is_x_stride(rect: Rect, px: int, py: int) -> bool {
    &&& (px - rect.x) % (TILE_SIZE as int) == 0
    &&& TILE_SIZE as int <= px - rect.x
    &&& px - rect.x < rect.w - 1
    &&& (py == rect.y || py == rect.y + rect.h - 1)
}

/// `(px, py)` is an interior sample on the left or right edge of `rect`.
pub open spec fn spec_is_y_stride(rect: Rect, px: int, py: int) -> bool {
    &&& (py - rect.y) % (TILE_SIZE as int) == 0
    &&& TILE_SIZE as int <= py - rect.y
    &&& py - rect.y < rect.h - 1
    &&& (px == rect.x || px == rect.x + rect.w - 1)
}

/// Some edge-stride sample of `rect` has class `c`, looking only at top and
/// bottom edge samples left of the column `bound`.
pub open spec fn spec_x_hit_below(
    w: Map<(int, int), Seq<TileId>>,
    rect: Rect,
    bound: int,
    c: CollisionResult,
) -> bool {
    exists|px: int, py: int|
        spec_is_x_stride(rect, px, py) && px < bound && #[trigger] spec_class_at(w, px, py) == c
}

/// Some top- or bottom-edge stride sample of `rect` has class `c`.
pub open spec fn spec_x_hit(w: Map<(int, int), Seq<TileId>>, rect: Rect, c: CollisionResult) -> bool {
    exists|px: int, py: int|
        spec_is_x_stride(rect, px, py) && #[trigger] spec_class_at(w, px, py) == c
}

/// Some left- or right-edge stride sample of `rect` above the row `bound`
/// has class `c`.
pub open spec fn spec_y_hit_below(
    w: Map<(int, int), Seq<TileId>>,
    rect: Rect,
    bound: int,
    c: CollisionResult,
) -> bool {
    exists|px: int, py: int|
        spec_is_y_stride(rect, px, py) && py < bound && #[trigger] spec_class_at(w, px, py) == c
}

/// Some left- or right-edge stride sample of `rect` has class `c`.
pub open spec fn spec_y_hit(w: Map<(int, int), Seq<TileId>>, rect: Rect, c: CollisionResult) -> bool {
    exists|px: int, py: int|
        spec_is_y_stride(rect, px, py) && #[trigger] spec_class_at(w, px, py) == c
}

/// Some edge-stride sample of `rect` has class `c`.
pub open spec fn spec_stride_hit(
    w: Map<(int, int), Seq<TileId>>,
    rect: Rect,
    c: CollisionResult,
) -> bool {
    spec_x_hit(w, rect, c) || spec_y_hit(w, rect, c)
}

/// The collision query: the four corners decide if any of them is
/// non-empty; otherwise the strongest class among the interior edge
/// samples, taken at tile-size strides along edges longer than one tile,
/// decides. `Empty` exactly when every sample is empty.
pub open spec fn spec_collide(w: Map<(int, int), Seq<TileId>>, rect: Rect) -> CollisionResult {
    let corner = spec_corner_class(w, rect);
    if corner != CollisionResult::Empty {
        corner
    } else if spec_stride_hit(w, rect, CollisionResult::Solid) {
        CollisionResult::Solid
    } else if spec_stride_hit(w, rect, CollisionResult::JumpThrough) {
        CollisionResult::JumpThrough
    } else {
        CollisionResult::Empty
    }
}

/// Two sample offsets that are whole tile strides apart and within one
/// stride of each other are equal or ordered.
proof fn lemma_stride_order(a: int, b: int)
    requires
        a % (TILE_SIZE as int) == 0,
        b % (TILE_SIZE as int) == 0,
        a < b + TILE_SIZE as int,
    ensures
        a <= b,
{
    lemma_fundamental_div_mod(a, TILE_SIZE as int);
    lemma_fundamental_div_mod(b, TILE_SIZE as int);
    let p = a / (TILE_SIZE as int);
    let q = b / (TILE_SIZE as int);
    assert(a <= b) by (nonlinear_arith)
        requires
            a == (TILE_SIZE as int) * p,
            b == (TILE_SIZE as int) * q,
            a < b + TILE_SIZE as int,
    ;
}

/// Extending the scanned columns by one stride adds exactly the two samples
/// of that column.
proof fn lemma_x_hit_step(
    wv: Map<(int, int), Seq<TileId>>,
    rect: Rect,
    b: int,
    c: CollisionResult,
)
    requires
        TILE_SIZE as int <= b - rect.x,
        (b - rect.x) % (TILE_SIZE as int) == 0,
        b - rect.x < rect.w - 1,
    ensures
        spec_x_hit_below(wv, rect, b + TILE_SIZE as int, c) <==> (spec_x_hit_below(wv, rect, b, c)
            || spec_class_at(wv, b, rect.y as int) == c || spec_class_at(
            wv,
            b,
            rect.y + rect.h - 1,
        ) == c),
{
    assert(spec_is_x_stride(rect, b, rect.y as int));
    assert(spec_is_x_stride(rect, b, rect.y + rect.h - 1));
    if spec_x_hit_below(wv, rect, b + TILE_SIZE as int, c) {
        let (px, py) = choose|px: int, py: int|
            spec_is_x_stride(rect, px, py) && px < b + TILE_SIZE as int && #[trigger] spec_class_at(
                wv,
                px,
                py,
            ) == c;
        lemma_stride_order(px - rect.x, b - rect.x);
        assert(px < b || px == b);
    }
}

/// Once the scan bound has passed the right corner column, the bounded and
/// unbounded sample predicates agree.
proof fn lemma_x_hit_finish(
    wv: Map<(int, int), Seq<TileId>>,
    rect: Rect,
    b: int,
    c: CollisionResult,
)
    requires
        rect.x + rect.w - 1 <= b,
    ensures
        spec_x_hit_below(wv, rect, b, c) <==> spec_x_hit(wv, rect, c),
{
    if spec_x_hit(wv, rect, c) {
        let (px, py) = choose|px: int, py: int|
            spec_is_x_stride(rect, px, py) && #[trigger] spec_class_at(wv, px, py) == c;
        assert(px < b);
        assert(spec_x_hit_below(wv, rect, b, c));
    }
}

/// No top- or bottom-edge sample lies left of the first stride column.
proof fn lemma_x_hit_empty(wv: Map<(int, int), Seq<TileId>>, rect: Rect, b: int, c: CollisionResult)
    requires
        b <= rect.x + TILE_SIZE as int,
    ensures
        !spec_x_hit_below(wv, rect, b, c),
{
    if spec_x_hit_below(wv, rect, b, c) {
        let (px, py) = choose|px: int, py: int|
            spec_is_x_stride(rect, px, py) && px < b && #[trigger] spec_class_at(wv, px, py) == c;
        assert(false);
    }
}

/// Extending the scanned rows by one stride adds exactly the two samples of
/// that row.
proof fn lemma_y_hit_step(
    wv: Map<(int, int), Seq<TileId>>,
    rect: Rect,
    b: int,
    c: CollisionResult,
)
    requires
        TILE_SIZE as int <= b - rect.y,
        (b - rect.y) % (TILE_SIZE as int) == 0,
        b - rect.y < rect.h - 1,
    ensures
        spec_y_hit_below(wv, rect, b + TILE_SIZE as int, c) <==> (spec_y_hit_below(wv, rect, b, c)
            || spec_class_at(wv, rect.x as int, b) == c || spec_class_at(
            wv,
            rect.x + rect.w - 1,
            b,
        ) == c),
{
    assert(spec_is_y_stride(rect, rect.x as int, b));
    assert(spec_is_y_stride(rect, rect.x + rect.w - 1, b));
    if spec_y_hit_below(wv, rect, b + TILE_SIZE as int, c) {
        let (px, py) = choose|px: int, py: int|
            spec_is_y_stride(rect, px, py) && py < b + TILE_SIZE as int && #[trigger] spec_class_at(
                wv,
                px,
                py,
            ) == c;
        lemma_stride_order(py - rect.y, b - rect.y);
        assert(py < b || py == b);
    }
}

/// Once the scan bound has passed the bottom corner row, the bounded and
/// unbounded sample predicates agree.
proof fn lemma_y_hit_finish(
    wv: Map<(int, int), Seq<TileId>>,
    rect: Rect,
    b: int,
    c: CollisionResult,
)
    requires
        rect.y + rect.h - 1 <= b,
    ensures
        spec_y_hit_below(wv, rect, b, c) <==> spec_y_hit(wv, rect, c),
{
    if spec_y_hit(wv, rect, c) {
        let (px, py) = choose|px: int, py: int|
            spec_is_y_stride(rect, px, py) && #[trigger] spec_class_at(wv, px, py) == c;
        assert(py < b);
        assert(spec_y_hit_below(wv, rect, b, c));
    }
}

/// No left- or right-edge sample lies above the first stride row.
proof fn lemma_y_hit_empty(wv: Map<(int, int), Seq<TileId>>, rect: Rect, b: int, c: CollisionResult)
    requires
        b <= rect.y + TILE_SIZE as int,
    ensures
        !spec_y_hit_below(wv, rect, b, c),
{
    if spec_y_hit_below(wv, rect, b, c) {
        let (px, py) = choose|px: int, py: int|
            spec_is_y_stride(rect, px, py) && py < b && #[trigger] spec_class_at(wv, px, py) == c;
        assert(false);
    }
}

impl ChunkMap {
    /// Collision class of the tile containing the world point `(wx, wy)`,
    /// materializing its chunk if needed; the world's tiles are unchanged.
    fn class_at(&mut self, wx: i64, wy: i64) -> (r: CollisionResult)
        requires
            old(self).wf(),
            in_world_range(wx as int),
            in_world_range(wy as int),
        ensures
            r == spec_class_at(old(self).world_view(), wx as int, wy as int),
            r != CollisionResult::Collider,
            final(self).wf(),
            final(self).focus == old(self).focus,
            final(self).tile_size == old(self).tile_size,
            final(self).chunk_size == old(self).chunk_size,
            final(self).tag == old(self).tag,
            forall|cx: int, cy: int|
                #[trigger] final(self).spec_chunk_view(cx, cy) == old(self).spec_chunk_view(cx, cy),
            forall|cx: int, cy: int|
                old(self).spec_has_chunk(cx, cy) ==> final(self).spec_has_chunk(cx, cy),
    {
        let (cx, lxpx) = div_mod_floor(wx, VIRTUAL_WIDTH);
        let (cy, lypx) = div_mod_floor(wy, VIRTUAL_HEIGHT);
        let lx = lxpx / TILE_SIZE;
        let ly = lypx / TILE_SIZE;
        proof {
            assert(0 <= lxpx as int / (TILE_SIZE as int) && lxpx as int / (TILE_SIZE as int)
                < CHUNK_TILES_X as int && 0 <= lypx as int / (TILE_SIZE as int) && lypx as int / (
            TILE_SIZE as int) < CHUNK_TILES_Y as int) by (nonlinear_arith)
                requires
                    0 <= lxpx as int && (lxpx as int) < VIRTUAL_WIDTH as int,
                    0 <= lypx as int && (lypx as int) < VIRTUAL_HEIGHT as int,
            ;
        }
        let chunk = self.get(ChunkPos(Vec2i { x: cx, y: cy }));
        let tile: TileId = match chunk.0.get(lx as u32, ly as u32) {
            Some(t) => *t,
            None => {
                proof {
                    assert(false);
                }
                unreached()
            },
        };
        proof {
            let wv = old(self).world_view();
            assert(wv[(cx as int, cy as int)] == old(self).spec_chunk_view(cx as int, cy as int));
            assert(grid_index(CHUNK_TILES_X as int, lx as int, ly as int) == tile_index_of(
                wx as int,
                wy as int,
            ));
            assert(tile == spec_world_tile(wv, wx as int, wy as int));
        }
        tile.val().collision_result()
    }

    /// The strongest collision classification over the sample points of
    /// `collider`: its four corners and, along each edge longer than one
    /// tile, interior points at tile-size strides (see [`spec_collide`]).
    /// Chunks touched by a sample are materialized; the world's tiles are
    /// unchanged.
    #[verifier::rlimit(30)]
    pub fn collide(&mut self, collider: Rect) -> (r: CollisionResult)
        requires
            old(self).wf(),
            in_world_range(collider.x as int),
            in_world_range(collider.y as int),
            1 <= collider.w <= 0x10_0000,
            1 <= collider.h <= 0x10_0000,
            in_world_range(collider.x as int + collider.w as int),
            in_world_range(collider.y as int + collider.h as int),
        ensures
            r == spec_collide(old(self).world_view(), collider),
            r != CollisionResult::Collider,
            final(self).wf(),
            final(self).focus == old(self).focus,
            final(self).tile_size == old(self).tile_size,
            final(self).chunk_size == old(self).chunk_size,
            final(self).tag == old(self).tag,
            forall|cx: int, cy: int|
                #[trigger] final(self).spec_chunk_view(cx, cy) == old(self).spec_chunk_view(cx, cy),
            forall|cx: int, cy: int|
                old(self).spec_has_chunk(cx, cy) ==> final(self).spec_has_chunk(cx, cy),
    {
        let ghost m0 = *old(self);
        let ghost wv = old(self).world_view();
        let x = collider.x;
        let y = collider.y;
        let w = collider.w;
        let h = collider.h;

        let c_tl = self.class_at(x, y);
        proof {
            lemma_same_world_view(m0, *self);
        }
        let c_tr = self.class_at(x + w - 1, y);
        proof {
            lemma_same_world_view(m0, *self);
        }
        let c_br = self.class_at(x + w - 1, y + h - 1);
        proof {
            lemma_same_world_view(m0, *self);
        }
        let c_bl = self.class_at(x, y + h - 1);
        proof {
            lemma_same_world_view(m0, *self);
        }
        let tile = c_tl.or(c_tr).or(c_br).or(c_bl);
        if tile != CollisionResult::Empty {
            return tile;
        }
        proof {
            assert(spec_corner_class(wv, collider) == CollisionResult::Empty);
        }

        let mut acc = CollisionResult::Empty;
        let mut xk = x + TILE_SIZE;
        proof {
            lemma_x_hit_empty(wv, collider, xk as int, CollisionResult::Solid);
            lemma_x_hit_empty(wv, collider, xk as int, CollisionResult::JumpThrough);
        }
        while xk < x + w - 1
            invariant
                self.wf(),
                m0 == *old(self),
                wv == m0.world_view(),
                m0.wf(),
                in_world_range(x as int),
                in_world_range(y as int),
                1 <= w <= 0x10_0000,
                1 <= h <= 0x10_0000,
                in_world_range(x as int + w as int),
                in_world_range(y as int + h as int),
                x == collider.x && y == collider.y && w == collider.w && h == collider.h,
                self.focus == m0.focus,
                self.tile_size == m0.tile_size,
                self.chunk_size == m0.chunk_size,
                self.tag == m0.tag,
                forall|cx: int, cy: int|
                    #[trigger] self.spec_chunk_view(cx, cy) == m0.spec_chunk_view(cx, cy),
                forall|cx: int, cy: int|
                    m0.spec_has_chunk(cx, cy) ==> self.spec_has_chunk(cx, cy),
                TILE_SIZE as int <= xk - x,
                (xk - x) % (TILE_SIZE as int) == 0,
                xk <= x + w + TILE_SIZE as int,
                acc != CollisionResult::Collider,
                acc == CollisionResult::Solid <==> spec_x_hit_below(
                    wv,
                    collider,
                    xk as int,
                    CollisionResult::Solid,
                ),
                acc == CollisionResult::JumpThrough <==> !spec_x_hit_below(
                    wv,
                    collider,
                    xk as int,
                    CollisionResult::Solid,
                ) && spec_x_hit_below(wv, collider, xk as int, CollisionResult::JumpThrough),
            decreases x + w + TILE_SIZE - xk,
        {
            proof {
                lemma_same_world_view(m0, *self);
            }
            let cy1 = self.class_at(xk, y);
            proof {
                lemma_same_world_view(m0, *self);
            }
            let cy2 = self.class_at(xk, y + h - 1);
            let pair = cy1.or(cy2);
            let ghost xk_old = xk as int;
            acc = acc.or(pair);
            xk = xk + TILE_SIZE;
            proof {
                lemma_x_hit_step(wv, collider, xk_old, CollisionResult::Solid);
                lemma_x_hit_step(wv, collider, xk_old, CollisionResult::JumpThrough);
            }
        }
        proof {
            lemma_x_hit_finish(wv, collider, xk as int, CollisionResult::Solid);
            lemma_x_hit_finish(wv, collider, xk as int, CollisionResult::JumpThrough);
        }

        let mut yk = y + TILE_SIZE;
        proof {
            lemma_y_hit_empty(wv, collider, yk as int, CollisionResult::Solid);
            lemma_y_hit_empty(wv, collider, yk as int, CollisionResult::JumpThrough);
        }
        while yk < y + h - 1
            invariant
                self.wf(),
                m0 == *old(self),
                wv == m0.world_view(),
                m0.wf(),
                in_world_range(x as int),
                in_world_range(y as int),
                1 <= w <= 0x10_0000,
                1 <= h <= 0x10_0000,
                in_world_range(x as int + w as int),
                in_world_range(y as int + h as int),
                x == collider.x && y == collider.y && w == collider.w && h == collider.h,
                self.focus == m0.focus,
                self.tile_size == m0.tile_size,
                self.chunk_size == m0.chunk_size,
                self.tag == m0.tag,
                forall|cx: int, cy: int|
                    #[trigger] self.spec_chunk_view(cx, cy) == m0.spec_chunk_view(cx, cy),
                forall|cx: int, cy: int|
                    m0.spec_has_chunk(cx, cy) ==> self.spec_has_chunk(cx, cy),
                TILE_SIZE as int <= yk - y,
                (yk - y) % (TILE_SIZE as int) == 0,
                yk <= y + h + TILE_SIZE as int,
                acc != CollisionResult::Collider,
                acc == CollisionResult::Solid <==> spec_x_hit(wv, collider, CollisionResult::Solid)
                    || spec_y_hit_below(wv, collider, yk as int, CollisionResult::Solid),
                acc == CollisionResult::JumpThrough <==> !(spec_x_hit(
                    wv,
                    collider,
                    CollisionResult::Solid,
                ) || spec_y_hit_below(wv, collider, yk as int, CollisionResult::Solid)) && (
                spec_x_hit(wv, collider, CollisionResult::JumpThrough) || spec_y_hit_below(
                    wv,
                    collider,
                    yk as int,
                    CollisionResult::JumpThrough,
                )),
            decreases y + h + TILE_SIZE - yk,
        {
            proof {
                lemma_same_world_view(m0, *self);
            }
            let cx1 = self.class_at(x, yk);
            proof {
                lemma_same_world_view(m0, *self);
            }
            let cx2 = self.class_at(x + w - 1, yk);
            let pair = cx1.or(cx2);
            let ghost yk_old = yk as int;
            acc = acc.or(pair);
            yk = yk + TILE_SIZE;
            proof {
                lemma_y_hit_step(wv, collider, yk_old, CollisionResult::Solid);
                lemma_y_hit_step(wv, collider, yk_old, CollisionResult::JumpThrough);
            }
        }
        proof {
            lemma_y_hit_finish(wv, collider, yk as int, CollisionResult::Solid);
            lemma_y_hit_finish(wv, collider, yk as int, CollisionResult::JumpThrough);
        }
        acc
    }
}

/// The world position `(px, py)`, snapped down to its tile, claims the
/// square `[sx, sx+16) x [sy, sy+16)`; placement conflicts with a body
/// rectangle exactly when that square and the rectangle overlap with
/// positive area (touching edges do not conflict).
pub open spec fn spec_place_conflict(rect: Rect, px: int, py: int) -> bool {
    let sx = (px / (TILE_SIZE as int)) * (TILE_SIZE as int);
    let sy = (py / (TILE_SIZE as int)) * (TILE_SIZE as int);
    &&& rect.w > 0
    &&& rect.h > 0
    &&& rect.x < sx + TILE_SIZE as int
    &&& sx < rect.x + rect.w
    &&& rect.y < sy + TILE_SIZE as int
    &&& sy < rect.y + rect.h
}

impl Chunk {
    /// An equal copy of this chunk, cell for cell.
    pub fn duplicate(&self) -> (r: Chunk)
        requires
            self.wf(),
        ensures
            r.wf(),
            r.contents() == self.contents(),
    {
        let n = self.0.array.len();
        let mut array: Vec<TileId> = Vec::new();
        let mut i: usize = 0;
        while i < n
            invariant
                i <= n,
                n == self.0.array@.len(),
                array@.len() == i,
                forall|j: int| 0 <= j < i ==> array@[j] == self.0.array@[j],
            decreases n - i,
        {
            array.push(self.0.array[i]);
            i = i + 1;
        }
        proof {
            assert(array@ =~= self.0.array@);
        }
        Chunk(Grid { array, width: self.0.width, height: self.0.height })
    }
}

impl ChunkMap {
    /// Write one tile at the world position `pos`, unless the tile's
    /// footprint overlaps the placing body's rectangle with positive area:
    /// then the write is refused, the store is left exactly as it was, and
    /// `false` signals the conflict.
    pub fn place_tile(&mut self, rect: Rect, pos: WorldPos, tile: TileId) -> (placed: bool)
        requires
            old(self).wf(),
            in_world_range(pos.0.x as int),
            in_world_range(pos.0.y as int),
            in_world_range(rect.x as int),
            in_world_range(rect.y as int),
            0 <= rect.w,
            0 <= rect.h,
            in_world_range(rect.x as int + rect.w as int),
            in_world_range(rect.y as int + rect.h as int),
        ensures
            placed == !spec_place_conflict(rect, pos.0.x as int, pos.0.y as int),
            !placed ==> *final(self) == *old(self),
            final(self).wf(),
            final(self).focus == old(self).focus,
            final(self).tile_size == old(self).tile_size,
            final(self).chunk_size == old(self).chunk_size,
            final(self).tag == old(self).tag,
            placed ==> final(self).spec_chunk_view(
                pos.0.x as int / (VIRTUAL_WIDTH as int),
                pos.0.y as int / (VIRTUAL_HEIGHT as int),
            ) == old(self).spec_chunk_view(
                pos.0.x as int / (VIRTUAL_WIDTH as int),
                pos.0.y as int / (VIRTUAL_HEIGHT as int),
            ).update(tile_index_of(pos.0.x as int, pos.0.y as int), tile),
            forall|cx: int, cy: int|
                !(cx == pos.0.x as int / (VIRTUAL_WIDTH as int) && cy == pos.0.y as int / (
                VIRTUAL_HEIGHT as int)) ==> #[trigger] final(self).spec_chunk_view(cx, cy) == old(
                    self,
                ).spec_chunk_view(cx, cy),
            forall|cx: int, cy: int|
                old(self).spec_has_chunk(cx, cy) ==> final(self).spec_has_chunk(cx, cy),
    {
        let snapped = pos.snap();
        let sx = snapped.0.x;
        let sy = snapped.0.y;
        if rect.w > 0 && rect.h > 0 && rect.x < sx + TILE_SIZE && sx < rect.x + rect.w && rect.y
            < sy + TILE_SIZE && sy < rect.y + rect.h {
            return false;
        }
        let (cx, lxpx) = div_mod_floor(pos.0.x, VIRTUAL_WIDTH);
        let (cy, lypx) = div_mod_floor(pos.0.y, VIRTUAL_HEIGHT);
        let lx = lxpx / TILE_SIZE;
        let ly = lypx / TILE_SIZE;
        proof {
            assert(0 <= lxpx as int / (TILE_SIZE as int) && (lxpx as int / (TILE_SIZE as int))
                < CHUNK_TILES_X as int && 0 <= lypx as int / (TILE_SIZE as int) && (lypx as int / (
            TILE_SIZE as int)) < CHUNK_TILES_Y as int) by (nonlinear_arith)
                requires
                    0 <= lxpx as int && (lxpx as int) < VIRTUAL_WIDTH as int,
                    0 <= lypx as int && (lypx as int) < VIRTUAL_HEIGHT as int,
            ;
        }
        let chunk = self.get_mut(ChunkPos(Vec2i { x: cx, y: cy }));
        let cell = chunk.0.get_mut(lx as u32, ly as u32);
        *cell = tile;
        proof {
            assert(grid_index(CHUNK_TILES_X as int, lx as int, ly as int) == tile_index_of(
                pos.0.x as int,
                pos.0.y as int,
            ));
        }
        true
    }

    /// The chunk at `point` and its eight neighbors, each a copy tagged
    /// with its offset from `point`, in row-major offset order; none of the
    /// nine positions is skipped or duplicated.
    pub fn chunks_around(&mut self, point: ChunkPos) -> (r: NineOf<Chunk>)
        requires
            old(self).wf(),
            -0x1000_0000 <= point.0.x <= 0x1000_0000,
            -0x1000_0000 <= point.0.y <= 0x1000_0000,
        ensures
            final(self).wf(),
            final(self).focus == old(self).focus,
            final(self).tile_size == old(self).tile_size,
            final(self).chunk_size == old(self).chunk_size,
            final(self).tag == old(self).tag,
            forall|cx: int, cy: int|
                #[trigger] final(self).spec_chunk_view(cx, cy) == old(self).spec_chunk_view(cx, cy),
            forall|cx: int, cy: int|
                old(self).spec_has_chunk(cx, cy) ==> final(self).spec_has_chunk(cx, cy),
            r.items@.len() == 9,
            forall|i: int|
                0 <= i < 9 ==> (#[trigger] r.items@[i]).0 == ((i % 3 - 1) as i8, (i / 3 - 1) as i8),
            forall|i: int|
                0 <= i < 9 ==> (#[trigger] r.items@[i]).1.wf() && r.items@[i].1.contents() == old(
                    self,
                ).spec_chunk_view(
                    point.0.x + (i % 3 - 1),
                    point.0.y + (i / 3 - 1),
                ),
    {
        let ghost m0 = *old(self);
        let mut items: Vec<((i8, i8), Chunk)> = Vec::new();
        let mut i: usize = 0;
        while i < 9
            invariant
                i <= 9,
                self.wf(),
                m0 == *old(self),
                m0.wf(),
                -0x1000_0000 <= point.0.x <= 0x1000_0000,
                -0x1000_0000 <= point.0.y <= 0x1000_0000,
                self.focus == m0.focus,
                self.tile_size == m0.tile_size,
                self.chunk_size == m0.chunk_size,
                self.tag == m0.tag,
                forall|cx: int, cy: int|
                    #[trigger] self.spec_chunk_view(cx, cy) == m0.spec_chunk_view(cx, cy),
                forall|cx: int, cy: int|
                    m0.spec_has_chunk(cx, cy) ==> self.spec_has_chunk(cx, cy),
                items@.len() == i,
                forall|j: int|
                    0 <= j < i ==> (#[trigger] items@[j]).0 == ((j % 3 - 1) as i8, (
                    j / 3 - 1) as i8),
                forall|j: int|
                    0 <= j < i ==> (#[trigger] items@[j]).1.wf() && items@[j].1.contents()
                        == m0.spec_chunk_view(point.0.x + (j % 3 - 1), point.0.y + (j / 3 - 1)),
            decreases 9 - i,
        {
            let dx = (i as i64) % 3 - 1;
            let dy = (i as i64) / 3 - 1;
            let chunk = self.get(ChunkPos(Vec2i { x: point.0.x + dx, y: point.0.y + dy }));
            let copy = chunk.duplicate();
            items.push(((dx as i8, dy as i8), copy));
            i = i + 1;
        }
        NineOf { items }
    }

    /// The 3x3 neighborhood around the focus chunk.
    pub fn around_focus(&mut self) -> (r: NineOf<Chunk>)
        requires
            old(self).wf(),
            -0x1000_0000 <= old(self).focus.0.x <= 0x1000_0000,
            -0x1000_0000 <= old(self).focus.0.y <= 0x1000_0000,
        ensures
            final(self).wf(),
            final(self).focus == old(self).focus,
            final(self).tag == old(self).tag,
            forall|cx: int, cy: int|
                #[trigger] final(self).spec_chunk_view(cx, cy) == old(self).spec_chunk_view(cx, cy),
            r.items@.len() == 9,
            forall|i: int|
                0 <= i < 9 ==> (#[trigger] r.items@[i]).0 == ((i % 3 - 1) as i8, (i / 3 - 1) as i8),
            forall|i: int|
                0 <= i < 9 ==> (#[trigger] r.items@[i]).1.wf() && r.items@[i].1.contents() == old(
                    self,
                ).spec_chunk_view(
                    old(self).focus.0.x + (i % 3 - 1),
                    old(self).focus.0.y + (i / 3 - 1),
                ),
    {
        let focus = self.focus;
        self.chunks_around(focus)
    }
}

/// Pushing one new chunk position onto a store leaves every other position
/// presenting the same view.
proof fn lemma_push_preserves(pre: ChunkMap, post: ChunkMap)
    requires
        pre.wf(),
        post.wf(),
        post.store@.len() == pre.store@.len() + 1,
        post.store@ == pre.store@.push(post.store@.last()),
    ensures
        forall|dx: int, dy: int|
            !(dx == post.store@.last().0.0.x as int && dy == post.store@.last().0.0.y as int)
                ==> #[trigger] post.spec_chunk_view(dx, dy) == pre.spec_chunk_view(dx, dy),
        forall|dx: int, dy: int|
            !(dx == post.store@.last().0.0.x as int && dy == post.store@.last().0.0.y as int)
                ==> #[trigger] post.spec_has_chunk(dx, dy) == pre.spec_has_chunk(dx, dy),
{
    let n = pre.store@.len() as int;
    let kx = post.store@[n].0.0.x as int;
    let ky = post.store@[n].0.0.y as int;
    assert forall|dx: int, dy: int| !(dx == kx && dy == ky)
        implies #[trigger] post.spec_has_chunk(dx, dy) == pre.spec_has_chunk(dx, dy) by {
        if pre.spec_has_chunk(dx, dy) {
            let j = pre.spec_chunk_index(dx, dy);
            assert(post.store@[j].0.0.x as int == dx && post.store@[j].0.0.y as int == dy);
            assert(post.spec_has_chunk(dx, dy));
        }
        if post.spec_has_chunk(dx, dy) {
            let j = post.spec_chunk_index(dx, dy);
            assert(j != n);
            assert(pre.store@[j].0.0.x as int == dx && pre.store@[j].0.0.y as int == dy);
            assert(pre.spec_has_chunk(dx, dy));
        }
    }
    assert forall|dx: int, dy: int| !(dx == kx && dy == ky)
        implies #[trigger] post.spec_chunk_view(dx, dy) == pre.spec_chunk_view(dx, dy) by {
        if post.spec_has_chunk(dx, dy) {
            let jpost = post.spec_chunk_index(dx, dy);
            let jpre = pre.spec_chunk_index(dx, dy);
            assert(jpost != n);
            if jpre != jpost {
                assert(pre.store@[jpre].0 == pre.store@[jpost].0);
            }
        }
    }
}

/// Wrap an arbitrary vector into the rectangle's extent by Euclidean
/// remainder per axis: the result lies in `[0, w) x [0, h)` and shifting
/// the input by whole multiples of the extent does not change it (see
/// [`lemma_wrap_vec_periodic`]).
pub fn wrap_around_vec_in_rect(rect: Rect, v: Vec2i) -> (r: Vec2i)
    requires
        0 < rect.w,
        0 < rect.h,
        in_world_range(v.x as int),
        in_world_range(v.y as int),
        in_world_range(rect.w as int),
        in_world_range(rect.h as int),
    ensures
        r.x == v.x as int % rect.w as int,
        r.y == v.y as int % rect.h as int,
        0 <= r.x < rect.w,
        0 <= r.y < rect.h,
{
    Vec2i { x: wrap_i64(v.x, rect.w), y: wrap_i64(v.y, rect.h) }
}

/// The row-tier law of generation: in a generated chunk on chunk row 0,
/// every cell at local tile row 7 or above is air and every cell below is
/// dirt; a generated chunk on a positive chunk row is all dirt, and on a
/// negative chunk row all air — for every column.
pub proof fn lemma_row_tiers(chunk_row: int, x: int, ty: int)
    requires
        0 <= x < CHUNK_TILES_X as int,
        0 <= ty < CHUNK_TILES_Y as int,
    ensures
        chunk_row == 0 && ty <= 7 ==> spec_gen_chunk(chunk_row)[ty * (CHUNK_TILES_X as int) + x]
            == TileId::Air,
        chunk_row == 0 && ty > 7 ==> spec_gen_chunk(chunk_row)[ty * (CHUNK_TILES_X as int) + x]
            == TileId::Dirt,
        chunk_row >= 1 ==> spec_gen_chunk(chunk_row)[ty * (CHUNK_TILES_X as int) + x]
            == TileId::Dirt,
        chunk_row <= -1 ==> spec_gen_chunk(chunk_row)[ty * (CHUNK_TILES_X as int) + x]
            == TileId::Air,
{
    let i = ty * (CHUNK_TILES_X as int) + x;
    assert(0 <= i < chunk_cell_count() && i / (CHUNK_TILES_X as int) == ty) by (nonlinear_arith)
        requires
            0 <= x < CHUNK_TILES_X as int,
            0 <= ty < CHUNK_TILES_Y as int,
            i == ty * (CHUNK_TILES_X as int) + x,
    ;
}

/// Generation is deterministic: an unmaterialized chunk position presents
/// the same tiles in any two stores — the generated contents, a pure
/// function of the position alone.
pub proof fn lemma_generation_deterministic(a: ChunkMap, b: ChunkMap, cx: int, cy: int)
    requires
        !a.spec_has_chunk(cx, cy),
        !b.spec_has_chunk(cx, cy),
    ensures
        a.spec_chunk_view(cx, cy) == b.spec_chunk_view(cx, cy),
        a.spec_chunk_view(cx, cy) == spec_gen_chunk(cy),
{
}

/// Two stores that present the same tiles at every chunk position have the
/// same world view.
pub proof fn lemma_same_world_view(a: ChunkMap, b: ChunkMap)
    requires
        forall|cx: int, cy: int| #[trigger] a.spec_chunk_view(cx, cy) == b.spec_chunk_view(cx, cy),
    ensures
        a.world_view() == b.world_view(),
{
    assert(a.world_view() =~= b.world_view());
}

/// Wraparound is periodic: shifting a vector by any whole number of extents
/// per axis leaves its wrapped position unchanged.
pub proof fn lemma_wrap_vec_periodic(vx: int, vy: int, w: int, h: int, k: int, m: int)
    requires
        0 < w,
        0 < h,
    ensures
        (vx + k * w) % w == vx % w,
        (vy + m * h) % h == vy % h,
{
    lemma_wrap_periodic(vx, w, k);
    lemma_wrap_periodic(vy, h, m);
}

} // verus!
