//! The kinematic mover: actors and solids with sub-pixel velocity
//! accumulation, whole-pixel stepping against the tile world and the
//! dynamic solids, and one-way platform state.
//!
//! Sub-pixel quantities (movement deltas and the per-axis remainders) are
//! counted in thousandths of a pixel; a requested delta is added to the
//! remainder, the rounded whole-pixel part is walked one pixel at a time,
//! and the fraction is carried to the next call.

use vstd::prelude::*;
use crate::{in_world_range, SUBPIXELS};
use crate::collision::CollisionResult;
use crate::intmath::div_floor_i64;
use crate::position::{Rect, Vec2i};
use crate::tile::TileId;
use crate::tile_map::{lemma_same_world_view, spec_collide, ChunkMap};

verus! {

/// Handle of an actor in a [`World`]: its index in the actor list.
#[derive(Debug, Clone, Copy, PartialEq, Eq, Hash, Structural)]
pub struct Actor(pub usize);

/// Handle of a solid in a [`World`]: its index in the solid list.
#[derive(Debug, Clone, Copy, PartialEq, Eq, Hash, Structural)]
pub struct Solid(pub usize);

/// Per-body collision state: position (whole pixels, top-left), extent,
/// sub-pixel remainders (thousandths of a pixel), squish state, and the
/// one-way platform flags.
#[derive(Debug)]
pub struct Collider {
    pub collidable: bool,
    pub squished: bool,
    pub pos: Vec2i,
    pub width: i32,
    pub height: i32,
    pub x_remainder: i64,
    pub y_remainder: i64,
    pub squishers: Vec<Solid>,
    pub descent: bool,
    pub seen_wood: bool,
}

/// Round half away from zero, from thousandths of a pixel to whole pixels.
pub open spec fn spec_round_px(r: int) -> int {
    if r >= 0 {
        (r + (SUBPIXELS as int) / 2) / (SUBPIXELS as int)
    } else {
        -((-r + (SUBPIXELS as int) / 2) / (SUBPIXELS as int))
    }
}

/// Round half away from zero on thousandths of a pixel.
pub fn round_px(r: i64) -> (q: i64)
    requires
        -0xF_0000_0000 <= r <= 0xF_0000_0000,
    ensures
        q == spec_round_px(r as int),
{
    if r >= 0 {
        div_floor_i64(r + SUBPIXELS / 2, SUBPIXELS)
    } else {
        -div_floor_i64(-r + SUBPIXELS / 2, SUBPIXELS)
    }
}

/// After carrying the rounded part away, the remainder is at most half a
/// pixel in magnitude.
pub proof fn lemma_round_residual(r: int)
    requires
        -0xF_0000_0000 <= r <= 0xF_0000_0000,
    ensures
        -(SUBPIXELS as int) / 2 <= r - spec_round_px(r) * (SUBPIXELS as int),
        r - spec_round_px(r) * (SUBPIXELS as int) <= (SUBPIXELS as int) / 2,
{
    let s = SUBPIXELS as int;
    if r >= 0 {
        vstd::arithmetic::div_mod::lemma_fundamental_div_mod(r + s / 2, s);
        vstd::arithmetic::div_mod::lemma_mod_bound(r + s / 2, s);
    } else {
        vstd::arithmetic::div_mod::lemma_fundamental_div_mod(-r + s / 2, s);
        vstd::arithmetic::div_mod::lemma_mod_bound(-r + s / 2, s);
    }
}

impl Collider {
    /// Remainders within half a pixel, extent positive and bounded.
    pub open spec fn wf(self) -> bool {
        &&& -0x200_0000 <= self.x_remainder <= 0x200_0000
        &&& -0x200_0000 <= self.y_remainder <= 0x200_0000
        &&& 1 <= self.width <= 0x10_0000
        &&& 1 <= self.height <= 0x10_0000
        &&& -0xF_0000_0000 <= self.pos.x <= 0xF_0000_0000
        &&& -0xF_0000_0000 <= self.pos.y <= 0xF_0000_0000
    }

    /// The position is far enough from the coordinate limits to leave room
    /// for one call's worth of stepping.
    pub open spec fn pos_ok(self) -> bool {
        &&& -0x8_0000_0000 <= self.pos.x <= 0x8_0000_0000
        &&& -0x8_0000_0000 <= self.pos.y <= 0x8_0000_0000
    }

    /// The rectangle this body occupies.
    pub open spec fn spec_rect(self) -> Rect {
        Rect { x: self.pos.x, y: self.pos.y, w: self.width as i64, h: self.height as i64 }
    }

    /// The rectangle this body occupies, in world pixels.
    pub fn rect(&self) -> (r: Rect)
        ensures
            r == self.spec_rect(),
    {
        Rect { x: self.pos.x, y: self.pos.y, w: self.width as i64, h: self.height as i64 }
    }
}

/// The squisher list without `s`.
pub open spec fn spec_sq_remove(q: Seq<Solid>, s: Solid) -> Seq<Solid> {
    q.filter(|t: Solid| t != s)
}

/// Removing a squisher commutes with appending one.
proof fn lemma_sq_remove_push(q: Seq<Solid>, x: Solid, s: Solid)
    ensures
        spec_sq_remove(q.push(x), s) == (if x != s {
            spec_sq_remove(q, s).push(x)
        } else {
            spec_sq_remove(q, s)
        }),
{
    reveal(Seq::filter);
    assert(q.push(x).drop_last() =~= q);
    assert(q.push(x).last() == x);
}

/// Nothing to remove from an empty squisher list.
proof fn lemma_sq_remove_empty(s: Solid)
    ensures
        spec_sq_remove(Seq::<Solid>::empty(), s) == Seq::<Solid>::empty(),
{
    reveal(Seq::filter);
}

impl Collider {
    /// Forget `s` as a squisher; with no squishers left the body is no
    /// longer squished.
    fn unsquish_from(&mut self, s: Solid)
        ensures
            final(self).squishers@ == spec_sq_remove(old(self).squishers@, s),
            final(self).squished == (if final(self).squishers@.len() == 0 {
                false
            } else {
                old(self).squished
            }),
            final(self).collidable == old(self).collidable,
            final(self).pos == old(self).pos,
            final(self).width == old(self).width,
            final(self).height == old(self).height,
            final(self).x_remainder == old(self).x_remainder,
            final(self).y_remainder == old(self).y_remainder,
            final(self).descent == old(self).descent,
            final(self).seen_wood == old(self).seen_wood,
    {
        let n = self.squishers.len();
        let mut kept: Vec<Solid> = Vec::new();
        let mut i: usize = 0;
        proof {
            lemma_sq_remove_empty(s);
            assert(old(self).squishers@.take(0) =~= Seq::<Solid>::empty());
        }
        while i < n
            invariant
                i <= n,
                n == self.squishers@.len(),
                *self == *old(self),
                kept@ == spec_sq_remove(old(self).squishers@.take(i as int), s),
            decreases n - i,
        {
            let t = self.squishers[i];
            if !(t.0 == s.0) {
                kept.push(t);
            }
            proof {
                assert(old(self).squishers@.take(i as int + 1) =~= old(self).squishers@.take(
                    i as int,
                ).push(t));
                lemma_sq_remove_push(old(self).squishers@.take(i as int), t, s);
            }
            i = i + 1;
        }
        proof {
            assert(old(self).squishers@.take(n as int) =~= old(self).squishers@);
        }
        self.squishers = kept;
        if self.squishers.is_empty() {
            self.squished = false;
        }
    }

    /// Remember `s` as a squisher, once.
    fn add_squisher(&mut self, s: Solid)
        ensures
            final(self).squishers@ == (if old(self).squishers@.contains(s) {
                old(self).squishers@
            } else {
                old(self).squishers@.push(s)
            }),
            final(self).squished == old(self).squished,
            final(self).collidable == old(self).collidable,
            final(self).pos == old(self).pos,
            final(self).width == old(self).width,
            final(self).height == old(self).height,
            final(self).x_remainder == old(self).x_remainder,
            final(self).y_remainder == old(self).y_remainder,
            final(self).descent == old(self).descent,
            final(self).seen_wood == old(self).seen_wood,
    {
        let n = self.squishers.len();
        let mut i: usize = 0;
        while i < n
            invariant
                i <= n,
                n == self.squishers@.len(),
                *self == *old(self),
                forall|j: int| 0 <= j < i ==> #[trigger] self.squishers@[j] != s,
            decreases n - i,
        {
            if self.squishers[i].0 == s.0 {
                return ;
            }
            i = i + 1;
        }
        proof {
            if self.squishers@.contains(s) {
                let j = choose|j: int|
                    0 <= j < self.squishers@.len() && self.squishers@[j] == s;
                assert(false);
            }
        }
        self.squishers.push(s);
    }
}

/// Positive-area overlap of two rectangles (touching edges do not count:
/// each rectangle covers a half-open box of pixels).
pub open spec fn spec_rects_overlap(a: Rect, b: Rect) -> bool {
    &&& a.x < b.x + b.w
    &&& b.x < a.x + a.w
    &&& a.y < b.y + b.h
    &&& b.y < a.y + a.h
}

/// Positive-area overlap test.
pub fn rects_overlap(a: Rect, b: Rect) -> (r: bool)
    requires
        in_world_range(a.x as int + a.w as int),
        in_world_range(b.x as int + b.w as int),
        in_world_range(a.y as int + a.h as int),
        in_world_range(b.y as int + b.h as int),
        in_world_range(a.x as int),
        in_world_range(a.y as int),
        in_world_range(b.x as int),
        in_world_range(b.y as int),
    ensures
        r == spec_rects_overlap(a, b),
{
    a.x < b.x + b.w && b.x < a.x + a.w && a.y < b.y + b.h && b.y < a.y + a.h
}

/// Some collidable solid overlaps the rectangle.
pub open spec fn spec_solid_blocks(solids: Seq<(Solid, Collider)>, rect: Rect) -> bool {
    exists|i: int|
        0 <= i < solids.len() && (#[trigger] solids[i]).1.collidable && spec_rects_overlap(
            solids[i].1.spec_rect(),
            rect,
        )
}

/// Combined collision query against the tile world and the dynamic solids:
/// the tiles answer first; if they are empty, a collidable overlapping
/// solid answers `Collider`.
pub open spec fn spec_collide_solids(
    w: Map<(int, int), Seq<TileId>>,
    solids: Seq<(Solid, Collider)>,
    rect: Rect,
) -> CollisionResult {
    let t = spec_collide(w, rect);
    if t != CollisionResult::Empty {
        t
    } else if spec_solid_blocks(solids, rect) {
        CollisionResult::Collider
    } else {
        CollisionResult::Empty
    }
}

/// Whether a probe result blocks a body: with `descent` set a one-way
/// platform does not block, otherwise it does.
pub open spec fn spec_blocks_probe(t: CollisionResult, descent: bool) -> bool {
    if descent {
        t == CollisionResult::Solid || t == CollisionResult::Collider
    } else {
        t == CollisionResult::Solid || t == CollisionResult::Collider || t
            == CollisionResult::JumpThrough
    }
}

/// Ghost state of a body while it steps along one axis: the coordinate on
/// the moving axis and the one-way platform flags.
pub ghost struct MoveState {
    pub p: int,
    pub descent: bool,
    pub seen_wood: bool,
}

/// A rectangle from mathematical coordinates; meaningful whenever they fit
/// the pixel range.
pub open spec fn rect_at(x: int, y: int, w: int, h: int) -> Rect {
    Rect { x: x as i64, y: y as i64, w: w as i64, h: h as i64 }
}

/// One vertical step from state `s` is blocked: the destination footprint
/// classifies as something other than open space, where a one-way platform
/// counts as open for a descending body, and moving upward through one
/// grants (and engages) descent.
pub open spec fn spec_v_blocked(
    w: Map<(int, int), Seq<TileId>>,
    solids: Seq<(Solid, Collider)>,
    x: int,
    width: int,
    height: int,
    sign: int,
    s: MoveState,
) -> bool {
    let t = spec_collide_solids(w, solids, rect_at(x, s.p + sign, width, height));
    !(t == CollisionResult::Empty || (t == CollisionResult::JumpThrough && (s.descent || sign
        < 0)))
}

/// One committed vertical step: advance one pixel; meeting a one-way
/// platform while descending records it, and meeting one while moving up
/// engages descent.
pub open spec fn spec_v_step(
    w: Map<(int, int), Seq<TileId>>,
    solids: Seq<(Solid, Collider)>,
    x: int,
    width: int,
    height: int,
    sign: int,
    s: MoveState,
) -> MoveState {
    let t = spec_collide_solids(w, solids, rect_at(x, s.p + sign, width, height));
    MoveState {
        p: s.p + sign,
        descent: s.descent || (t == CollisionResult::JumpThrough && sign < 0),
        seen_wood: s.seen_wood || (t == CollisionResult::JumpThrough && (s.descent || sign < 0)),
    }
}

/// Walk up to `n` vertical one-pixel steps from `s`, stopping at the first
/// blocked one: the resulting state and the number of committed steps.
pub open spec fn spec_v_run(
    w: Map<(int, int), Seq<TileId>>,
    solids: Seq<(Solid, Collider)>,
    x: int,
    width: int,
    height: int,
    sign: int,
    s: MoveState,
    n: nat,
) -> (MoveState, nat)
    decreases n,
{
    if n == 0 {
        (s, 0nat)
    } else if spec_v_blocked(w, solids, x, width, height, sign, s) {
        (s, 0nat)
    } else {
        let rest = spec_v_run(
            w,
            solids,
            x,
            width,
            height,
            sign,
            spec_v_step(w, solids, x, width, height, sign, s),
            (n - 1) as nat,
        );
        (rest.0, (rest.1 + 1) as nat)
    }
}

/// One horizontal step from state `s` is blocked: only solid scenery and
/// dynamic colliders block sideways movement.
pub open spec fn spec_h_blocked(
    w: Map<(int, int), Seq<TileId>>,
    solids: Seq<(Solid, Collider)>,
    y: int,
    width: int,
    height: int,
    sign: int,
    s: MoveState,
) -> bool {
    let t = spec_collide_solids(w, solids, rect_at(s.p + sign, y, width, height));
    !(t == CollisionResult::Empty || t == CollisionResult::JumpThrough)
}

/// One committed horizontal step: advance one pixel; crossing a one-way
/// platform sideways unconditionally engages both platform flags.
pub open spec fn spec_h_step(
    w: Map<(int, int), Seq<TileId>>,
    solids: Seq<(Solid, Collider)>,
    y: int,
    width: int,
    height: int,
    sign: int,
    s: MoveState,
) -> MoveState {
    let t = spec_collide_solids(w, solids, rect_at(s.p + sign, y, width, height));
    MoveState {
        p: s.p + sign,
        descent: s.descent || t == CollisionResult::JumpThrough,
        seen_wood: s.seen_wood || t == CollisionResult::JumpThrough,
    }
}

/// Walk up to `n` horizontal one-pixel steps from `s`, stopping at the
/// first blocked one: the resulting state and the number of committed
/// steps.
pub open spec fn spec_h_run(
    w: Map<(int, int), Seq<TileId>>,
    solids: Seq<(Solid, Collider)>,
    y: int,
    width: int,
    height: int,
    sign: int,
    s: MoveState,
    n: nat,
) -> (MoveState, nat)
    decreases n,
{
    if n == 0 {
        (s, 0nat)
    } else if spec_h_blocked(w, solids, y, width, height, sign, s) {
        (s, 0nat)
    } else {
        let rest = spec_h_run(
            w,
            solids,
            y,
            width,
            height,
            sign,
            spec_h_step(w, solids, y, width, height, sign, s),
            (n - 1) as nat,
        );
        (rest.0, (rest.1 + 1) as nat)
    }
}

/// The solid list as the actors see it while a solid at index `sid` moves
/// them: that solid is temporarily not collidable and has absorbed the
/// requested delta into its remainders, but has not moved yet.
pub open spec fn spec_solids_mid(
    solids: Seq<(Solid, Collider)>,
    sid: int,
    dx: int,
    dy: int,
) -> Seq<(Solid, Collider)> {
    solids.update(
        sid,
        (
            solids[sid].0,
            Collider {
                collidable: false,
                x_remainder: (solids[sid].1.x_remainder + dx) as i64,
                y_remainder: (solids[sid].1.y_remainder + dy) as i64,
                ..solids[sid].1
            },
        ),
    )
}

/// The exact effect of one solid's move on one actor. With the solid at
/// pre-move state `s0` moving `mx` whole pixels along x: an actor standing
/// on the solid's top edge rides; an actor the solid's destination
/// footprint overlaps (and that is not already squished) is pushed; both
/// are moved horizontally by `mx` pixels through the ordinary horizontal
/// mover, against the world with the moving solid not collidable. A pushed
/// actor that cannot complete the distance is squished and remembers the
/// solid. An actor no longer overlapped by the destination footprint
/// forgets the solid as a squisher, and is unsquished once no squishers
/// remain.
pub open spec fn spec_actor_after_solid_move(
    wv: Map<(int, int), Seq<TileId>>,
    solids_mid: Seq<(Solid, Collider)>,
    s0: Collider,
    mx: int,
    solid: Solid,
    c0: Collider,
    c1: Collider,
) -> bool {
    let riding_rect = rect_at(s0.pos.x as int, s0.pos.y - 1, s0.width as int, 1);
    let pushing_rect = rect_at(s0.pos.x + mx, s0.pos.y as int, s0.width as int, s0.height as int);
    let rider_rect = rect_at(c0.pos.x as int, c0.pos.y + c0.height - 1, c0.width as int, 1);
    let riding = spec_rects_overlap(riding_rect, rider_rect);
    let overlaps_push = spec_rects_overlap(pushing_rect, c0.spec_rect());
    let pushing = !riding && overlaps_push && !c0.squished;
    let sq1 = if !overlaps_push {
        spec_sq_remove(c0.squishers@, solid)
    } else {
        c0.squishers@
    };
    let squished1 = if !overlaps_push && sq1.len() == 0 {
        false
    } else {
        c0.squished
    };
    let rem1 = c0.x_remainder + mx * (SUBPIXELS as int);
    let mv = spec_round_px(rem1);
    let nn = (if mv >= 0 {
        mv
    } else {
        -mv
    }) as nat;
    let sign: int = if mv > 0 {
        1
    } else if mv < 0 {
        -1
    } else {
        0
    };
    let run = spec_h_run(
        wv,
        solids_mid,
        c0.pos.y as int,
        c0.width as int,
        c0.height as int,
        sign,
        (MoveState { p: c0.pos.x as int, descent: c0.descent, seen_wood: c0.seen_wood }),
        nn,
    );
    let moved = run.1 == nn;
    &&& c1.pos.y == c0.pos.y
    &&& c1.y_remainder == c0.y_remainder
    &&& c1.width == c0.width
    &&& c1.height == c0.height
    &&& c1.collidable == c0.collidable
    &&& if riding || pushing {
        &&& c1.pos.x == run.0.p
        &&& c1.x_remainder == rem1 - mv * (SUBPIXELS as int)
        &&& c1.descent == run.0.descent
        &&& c1.seen_wood == run.0.seen_wood
        &&& c1.squished == (if pushing && !moved {
            true
        } else {
            squished1
        })
        &&& c1.squishers@ == (if pushing && !moved {
            if sq1.contains(solid) {
                sq1
            } else {
                sq1.push(solid)
            }
        } else {
            sq1
        })
    } else {
        &&& c1.pos.x == c0.pos.x
        &&& c1.x_remainder == c0.x_remainder
        &&& c1.descent == c0.descent
        &&& c1.seen_wood == c0.seen_wood
        &&& c1.squished == squished1
        &&& c1.squishers@ == sq1
    }
}

/// The world aggregate: the tile store plus every dynamic body.
#[derive(Debug)]
pub struct World {
    pub map: ChunkMap,
    pub solids: Vec<(Solid, Collider)>,
    pub actors: Vec<(Actor, Collider)>,
}

impl World {
    /// Every collider is well formed, every handle names its own slot, and
    /// the tile store is well formed too.
    pub open spec fn wf(self) -> bool {
        &&& self.map.wf()
        &&& forall|i: int| 0 <= i < self.actors@.len() ==> (#[trigger] self.actors@[i]).1.wf()
        &&& forall|i: int| 0 <= i < self.solids@.len() ==> (#[trigger] self.solids@[i]).1.wf()
        &&& forall|i: int| 0 <= i < self.actors@.len() ==> (#[trigger] self.actors@[i]).0.0 == i
        &&& forall|i: int| 0 <= i < self.solids@.len() ==> (#[trigger] self.solids@[i]).0.0 == i
    }

    /// The tile world's view.
    pub open spec fn wv(self) -> Map<(int, int), Seq<TileId>> {
        self.map.world_view()
    }

    /// The tile world presents the same tiles (chunks may have been
    /// materialized, and the bodies may have moved).
    pub open spec fn same_tiles(pre: World, post: World) -> bool {
        &&& post.map.focus == pre.map.focus
        &&& post.map.tile_size == pre.map.tile_size
        &&& post.map.chunk_size == pre.map.chunk_size
        &&& post.map.tag == pre.map.tag
        &&& forall|cx: int, cy: int|
            #[trigger] post.map.spec_chunk_view(cx, cy) == pre.map.spec_chunk_view(cx, cy)
        &&& forall|cx: int, cy: int|
            pre.map.spec_has_chunk(cx, cy) ==> post.map.spec_has_chunk(cx, cy)
    }

    /// The bodies are unchanged and the tile world presents the same tiles
    /// (chunks may have been materialized).
    pub open spec fn same_bodies_and_tiles(pre: World, post: World) -> bool {
        &&& post.actors@ == pre.actors@
        &&& post.solids@ == pre.solids@
        &&& post.map.focus == pre.map.focus
        &&& post.map.tile_size == pre.map.tile_size
        &&& post.map.chunk_size == pre.map.chunk_size
        &&& post.map.tag == pre.map.tag
        &&& forall|cx: int, cy: int|
            #[trigger] post.map.spec_chunk_view(cx, cy) == pre.map.spec_chunk_view(cx, cy)
        &&& forall|cx: int, cy: int|
            pre.map.spec_has_chunk(cx, cy) ==> post.map.spec_has_chunk(cx, cy)
    }

    /// An empty world over a fresh store.
    pub fn new() -> (r: World)
        ensures
            r.wf(),
            r.actors@.len() == 0,
            r.solids@.len() == 0,
            r.map.spec_store_len() == 0,
            r.map.focus == (crate::position::ChunkPos(Vec2i { x: 0, y: 0 })),
            r.map.tag == 0,
            forall|cx: int, cy: int| !r.map.spec_has_chunk(cx, cy),
    {
        World { map: ChunkMap::default(), actors: Vec::new(), solids: Vec::new() }
    }

    /// Collision class of the tile world at the given rectangle; the tag is
    /// unused because this world has a single tile layer.
    pub fn collide_tag(&mut self, _tag: u8, pos: Vec2i, width: i32, height: i32) -> (r:
        CollisionResult)
        requires
            old(self).wf(),
            in_world_range(pos.x as int),
            in_world_range(pos.y as int),
            1 <= width <= 0x10_0000,
            1 <= height <= 0x10_0000,
            in_world_range(pos.x as int + width as int),
            in_world_range(pos.y as int + height as int),
        ensures
            r == spec_collide(
                old(self).wv(),
                (Rect { x: pos.x, y: pos.y, w: width as i64, h: height as i64 }),
            ),
            r != CollisionResult::Collider,
            final(self).wf(),
            World::same_bodies_and_tiles(*old(self), *final(self)),
    {
        self.map.collide(Rect { x: pos.x, y: pos.y, w: width as i64, h: height as i64 })
    }

    /// Combined collision query against tiles and collidable solids.
    pub fn collide_solids(&mut self, pos: Vec2i, width: i32, height: i32) -> (r: CollisionResult)
        requires
            old(self).wf(),
            in_world_range(pos.x as int),
            in_world_range(pos.y as int),
            1 <= width <= 0x10_0000,
            1 <= height <= 0x10_0000,
            in_world_range(pos.x as int + width as int),
            in_world_range(pos.y as int + height as int),
        ensures
            r == spec_collide_solids(
                old(self).wv(),
                old(self).solids@,
                (Rect { x: pos.x, y: pos.y, w: width as i64, h: height as i64 }),
            ),
            final(self).wf(),
            World::same_bodies_and_tiles(*old(self), *final(self)),
    {
        let rect = Rect { x: pos.x, y: pos.y, w: width as i64, h: height as i64 };
        let tile = self.collide_tag(1, pos, width, height);
        if tile != CollisionResult::Empty {
            return tile;
        }
        let n = self.solids.len();
        let mut i: usize = 0;
        while i < n
            invariant
                i <= n,
                n == self.solids@.len(),
                self.wf(),
                rect == (Rect { x: pos.x, y: pos.y, w: width as i64, h: height as i64 }),
                in_world_range(pos.x as int),
                in_world_range(pos.y as int),
                1 <= width <= 0x10_0000,
                1 <= height <= 0x10_0000,
                in_world_range(pos.x as int + width as int),
                in_world_range(pos.y as int + height as int),
                World::same_bodies_and_tiles(*old(self), *self),
                spec_collide(old(self).wv(), rect) == CollisionResult::Empty,
                forall|j: int|
                    0 <= j < i ==> !((#[trigger] self.solids@[j]).1.collidable && spec_rects_overlap(
                        self.solids@[j].1.spec_rect(),
                        rect,
                    )),
            decreases n - i,
        {
            let solid_rect = self.solids[i].1.rect();
            proof {
                assert(self.solids@[i as int].1.wf());
            }
            if self.solids[i].1.collidable && rects_overlap(solid_rect, rect) {
                proof {
                    assert((old(self).solids@[i as int]).1.collidable && spec_rects_overlap(
                        old(self).solids@[i as int].1.spec_rect(),
                        rect,
                    ));
                    assert(spec_solid_blocks(old(self).solids@, rect));
                }
                return CollisionResult::Collider;
            }
            i = i + 1;
        }
        CollisionResult::Empty
    }

    /// Add an actor body. Its one-way platform flags start set exactly when
    /// it spawns overlapping a jump-through platform.
    pub fn add_actor(&mut self, pos: Vec2i, width: i32, height: i32) -> (a: Actor)
        requires
            old(self).wf(),
            -0xF_0000_0000 <= pos.x <= 0xF_0000_0000 - 0x10_0000,
            -0xF_0000_0000 <= pos.y <= 0xF_0000_0000 - 0x10_0000,
            1 <= width <= 0x10_0000,
            1 <= height <= 0x10_0000,
        ensures
            final(self).wf(),
            a == (Actor(old(self).actors@.len() as usize)),
            final(self).actors@.len() == old(self).actors@.len() + 1,
            forall|j: int|
                0 <= j < old(self).actors@.len()
                    ==> #[trigger] final(self).actors@[j] == old(self).actors@[j],
            final(self).solids@ == old(self).solids@,
            ({
                let c = final(self).actors@.last().1;
                let spawned = spec_collide_solids(
                    old(self).wv(),
                    old(self).solids@,
                    (Rect { x: pos.x, y: pos.y, w: width as i64, h: height as i64 }),
                ) == CollisionResult::JumpThrough;
                &&& final(self).actors@.last().0 == a
                &&& c.pos == pos
                &&& c.width == width
                &&& c.height == height
                &&& c.x_remainder == 0
                &&& c.y_remainder == 0
                &&& c.collidable == true
                &&& c.squished == false
                &&& c.squishers@.len() == 0
                &&& c.descent == spawned
                &&& c.seen_wood == spawned
            }),
            forall|cx: int, cy: int|
                #[trigger] final(self).map.spec_chunk_view(cx, cy) == old(self).map.spec_chunk_view(
                    cx,
                    cy,
                ),
            final(self).map.focus == old(self).map.focus,
            final(self).map.tag == old(self).map.tag,
    {
        let actor = Actor(self.actors.len());
        let tile = self.collide_solids(pos, width, height);
        let mut descent = false;
        let mut seen_wood = false;
        if tile == CollisionResult::JumpThrough {
            descent = true;
            seen_wood = true;
        }
        self.actors.push(
            (
                actor,
                Collider {
                    collidable: true,
                    squished: false,
                    pos,
                    width,
                    height,
                    x_remainder: 0,
                    y_remainder: 0,
                    squishers: Vec::new(),
                    descent,
                    seen_wood,
                },
            ),
        );
        actor
    }

    /// Add a solid body.
    pub fn add_solid(&mut self, pos: Vec2i, width: i32, height: i32) -> (s: Solid)
        requires
            old(self).wf(),
            -0xF_0000_0000 <= pos.x <= 0xF_0000_0000,
            -0xF_0000_0000 <= pos.y <= 0xF_0000_0000,
            1 <= width <= 0x10_0000,
            1 <= height <= 0x10_0000,
        ensures
            final(self).wf(),
            s == (Solid(old(self).solids@.len() as usize)),
            final(self).solids@.len() == old(self).solids@.len() + 1,
            forall|j: int|
                0 <= j < old(self).solids@.len()
                    ==> #[trigger] final(self).solids@[j] == old(self).solids@[j],
            final(self).actors@ == old(self).actors@,
            final(self).map == old(self).map,
            ({
                let c = final(self).solids@.last().1;
                &&& final(self).solids@.last().0 == s
                &&& c.pos == pos
                &&& c.width == width
                &&& c.height == height
                &&& c.x_remainder == 0
                &&& c.y_remainder == 0
                &&& c.collidable == true
                &&& c.squished == false
                &&& c.squishers@.len() == 0
                &&& c.descent == false
                &&& c.seen_wood == false
            }),
    {
        let solid = Solid(self.solids.len());
        self.solids.push(
            (
                solid,
                Collider {
                    collidable: true,
                    squished: false,
                    pos,
                    width,
                    height,
                    x_remainder: 0,
                    y_remainder: 0,
                    squishers: Vec::new(),
                    descent: false,
                    seen_wood: false,
                },
            ),
        );
        solid
    }

    /// Teleport an actor: position is set, both sub-pixel remainders are
    /// dropped.
    pub fn set_actor_position(&mut self, actor: Actor, pos: Vec2i)
        requires
            old(self).wf(),
            actor.0 < old(self).actors@.len(),
            -0xF_0000_0000 <= pos.x <= 0xF_0000_0000,
            -0xF_0000_0000 <= pos.y <= 0xF_0000_0000,
        ensures
            final(self).wf(),
            final(self).actors@.len() == old(self).actors@.len(),
            forall|j: int|
                0 <= j < old(self).actors@.len() && j != actor.0 as int
                    ==> #[trigger] final(self).actors@[j] == old(self).actors@[j],
            ({
                let c0 = old(self).actors@[actor.0 as int].1;
                let c = final(self).actors@[actor.0 as int].1;
                &&& final(self).actors@[actor.0 as int].0 == old(self).actors@[actor.0 as int].0
                &&& c.pos == pos
                &&& c.x_remainder == 0
                &&& c.y_remainder == 0
                &&& c.width == c0.width
                &&& c.height == c0.height
                &&& c.collidable == c0.collidable
                &&& c.squished == c0.squished
                &&& c.squishers == c0.squishers
                &&& c.descent == c0.descent
                &&& c.seen_wood == c0.seen_wood
            }),
            final(self).solids@ == old(self).solids@,
            final(self).map == old(self).map,
    {
        let collider = &mut self.actors[actor.0].1;
        collider.x_remainder = 0;
        collider.y_remainder = 0;
        collider.pos = pos;
    }

    /// Engage downward passage through one-way platforms for an actor.
    pub fn descent(&mut self, actor: Actor)
        requires
            old(self).wf(),
            actor.0 < old(self).actors@.len(),
        ensures
            final(self).wf(),
            final(self).actors@.len() == old(self).actors@.len(),
            forall|j: int|
                0 <= j < old(self).actors@.len() && j != actor.0 as int
                    ==> #[trigger] final(self).actors@[j] == old(self).actors@[j],
            ({
                let c0 = old(self).actors@[actor.0 as int].1;
                let c = final(self).actors@[actor.0 as int].1;
                &&& final(self).actors@[actor.0 as int].0 == old(self).actors@[actor.0 as int].0
                &&& c == (Collider { descent: true, ..c0 })
            }),
            final(self).solids@ == old(self).solids@,
            final(self).map == old(self).map,
    {
        let collider = &mut self.actors[actor.0].1;
        collider.descent = true;
    }

    /// Whether an actor is currently squished between a solid and something
    /// immovable.
    pub fn squished(&self, actor: Actor) -> (r: bool)
        requires
            actor.0 < self.actors@.len(),
        ensures
            r == self.actors@[actor.0 as int].1.squished,
    {
        self.actors[actor.0].1.squished
    }

    /// An actor's position.
    pub fn actor_pos(&self, actor: Actor) -> (r: Vec2i)
        requires
            actor.0 < self.actors@.len(),
        ensures
            r == self.actors@[actor.0 as int].1.pos,
    {
        self.actors[actor.0].1.pos
    }

    /// A solid's position.
    pub fn solid_pos(&self, solid: Solid) -> (r: Vec2i)
        requires
            solid.0 < self.solids@.len(),
        ensures
            r == self.solids@[solid.0 as int].1.pos,
    {
        self.solids[solid.0].1.pos
    }

    /// Whether a world point lies on solid scenery of the default tag. This
    /// world has no tagged static layers, so every point reports solid, as
    /// a conservative stand-in.
    pub fn solid_at(&self, pos: Vec2i) -> (r: bool)
        ensures
            r == true,
    {
        self.tag_at(pos, 1)
    }

    /// Whether a world point lies on scenery of the given tag; see
    /// [`World::solid_at`].
    pub fn tag_at(&self, _pos: Vec2i, _tag: u8) -> (r: bool)
        ensures
            r == true,
    {
        true
    }

    /// Vertical mover: add `dy` (thousandths of a pixel) to the vertical
    /// remainder, walk the rounded whole-pixel part one pixel at a time in
    /// its sign direction, probing the destination footprint before each
    /// step, with one-way platform rules (see [`spec_v_run`]); then re-check
    /// the resting footprint and clear the platform flags if the body has
    /// left platform territory. Returns whether the full rounded
    /// displacement was achieved; partial progress is kept either way.
    pub fn move_v(&mut self, actor: Actor, dy: i64) -> (moved: bool)
        requires
            old(self).wf(),
            actor.0 < old(self).actors@.len(),
            old(self).actors@[actor.0 as int].1.pos_ok(),
            -0x4000_0000 <= dy <= 0x4000_0000,
        ensures
            final(self).wf(),
            World::same_tiles(*old(self), *final(self)),
            final(self).solids@ == old(self).solids@,
            final(self).actors@.len() == old(self).actors@.len(),
            forall|j: int|
                0 <= j < old(self).actors@.len() && j != actor.0 as int
                    ==> #[trigger] final(self).actors@[j] == old(self).actors@[j],
            ({
                let c0 = old(self).actors@[actor.0 as int].1;
                let rem1 = c0.y_remainder + dy;
                let mv = spec_round_px(rem1);
                let n = (if mv >= 0 { mv } else { -mv }) as nat;
                let sign: int = if mv > 0 { 1 } else if mv < 0 { -1 } else { 0 };
                let s0 = (MoveState { p: c0.pos.y as int, descent: c0.descent, seen_wood: c0.seen_wood });
                let run = spec_v_run(
                    old(self).wv(),
                    old(self).solids@,
                    c0.pos.x as int,
                    c0.width as int,
                    c0.height as int,
                    sign,
                    s0,
                    n,
                );
                let t_end = spec_collide_solids(
                    old(self).wv(),
                    old(self).solids@,
                    rect_at(c0.pos.x as int, run.0.p, c0.width as int, c0.height as int),
                );
                let over_wood = t_end == CollisionResult::JumpThrough;
                let c1 = final(self).actors@[actor.0 as int].1;
                &&& moved == (run.1 == n)
                &&& final(self).actors@[actor.0 as int].0 == old(self).actors@[actor.0 as int].0
                &&& c1.pos.x == c0.pos.x
                &&& c1.pos.y == run.0.p
                &&& c1.y_remainder == rem1 - mv * (SUBPIXELS as int)
                &&& c1.x_remainder == c0.x_remainder
                &&& c1.descent == (if over_wood { run.0.descent } else { false })
                &&& c1.seen_wood == (if over_wood { run.0.seen_wood } else { false })
                &&& c1.width == c0.width
                &&& c1.height == c0.height
                &&& c1.collidable == c0.collidable
                &&& c1.squished == c0.squished
                &&& c1.squishers == c0.squishers
            }),
    {
        let idx = actor.0;
        let x = self.actors[idx].1.pos.x;
        let y0 = self.actors[idx].1.pos.y;
        let width = self.actors[idx].1.width;
        let height = self.actors[idx].1.height;
        proof {
            assert(old(self).actors@[idx as int].1.wf());
        }
        let rem1 = self.actors[idx].1.y_remainder + dy;
        let mv = round_px(rem1);
        proof {
            lemma_round_residual(rem1 as int);
            assert(-0x20_0000 <= mv <= 0x20_0000) by (nonlinear_arith)
                requires
                    -(SUBPIXELS as int) / 2 <= rem1 - mv * (SUBPIXELS as int) <= (
                    SUBPIXELS as int) / 2,
                    -0x4200_0000 <= rem1 <= 0x4200_0000,
                    SUBPIXELS == 1000,
            ;
        }
        let new_rem = rem1 - mv * SUBPIXELS;
        let sign: i64 = if mv > 0 {
            1
        } else if mv < 0 {
            -1
        } else {
            0
        };
        let mut remaining: i64 = if mv >= 0 {
            mv
        } else {
            -mv
        };
        let ghost n0: int = remaining as int;
        let ghost wv0 = old(self).wv();
        let ghost solids0 = old(self).solids@;
        let ghost s0 = (MoveState { p: y0 as int, descent: old(self).actors@[idx as int].1.descent, seen_wood: old(self).actors@[idx as int].1.seen_wood });
        let ghost total = spec_v_run(wv0, solids0, x as int, width as int, height as int, sign as int, s0, n0 as nat);

        let mut py = y0;
        let mut descent = self.actors[idx].1.descent;
        let mut seen = self.actors[idx].1.seen_wood;
        let mut blocked = false;
        let ghost mut done: int = 0;

        while remaining > 0
            invariant
                self.wf(),
                idx == actor.0,
                idx < self.actors@.len(),
                self.actors@ == old(self).actors@,
                self.solids@ == old(self).solids@,
                World::same_tiles(*old(self), *self),
                wv0 == old(self).wv(),
                solids0 == old(self).solids@,
                x == old(self).actors@[idx as int].1.pos.x,
                width == old(self).actors@[idx as int].1.width,
                height == old(self).actors@[idx as int].1.height,
                1 <= width <= 0x10_0000,
                1 <= height <= 0x10_0000,
                -0x8_0000_0000 <= x <= 0x8_0000_0000,
                -0x8_0000_0000 <= y0 <= 0x8_0000_0000,
                sign == 1 || sign == -1 || sign == 0,
                n0 > 0 ==> sign == 1 || sign == -1,
                0 <= done <= n0 <= 0x20_0000,
                y0 - done <= py <= y0 + done,
                !blocked ==> remaining == n0 - done,
                blocked ==> remaining == 0 && done < n0,
                blocked ==> spec_v_blocked(
                    wv0,
                    solids0,
                    x as int,
                    width as int,
                    height as int,
                    sign as int,
                    (MoveState { p: py as int, descent, seen_wood: seen }),
                ),
                ({
                    let cur = (MoveState { p: py as int, descent, seen_wood: seen });
                    let rest = spec_v_run(
                        wv0,
                        solids0,
                        x as int,
                        width as int,
                        height as int,
                        sign as int,
                        cur,
                        (n0 - done) as nat,
                    );
                    rest.0 == total.0 && done + rest.1 == total.1
                }),
            decreases remaining,
        {
            proof {
                lemma_same_world_view(old(self).map, self.map);
            }
            let t = self.collide_solids(Vec2i { x, y: py + sign }, width, height);
            if t == CollisionResult::JumpThrough && descent {
                seen = true;
            }
            if t == CollisionResult::JumpThrough && sign < 0 {
                seen = true;
                descent = true;
            }
            if t == CollisionResult::Empty || (t == CollisionResult::JumpThrough && descent) {
                py = py + sign;
                remaining = remaining - 1;
                proof {
                    done = done + 1;
                }
            } else {
                blocked = true;
                remaining = 0;
            }
        }

        proof {
            lemma_same_world_view(old(self).map, self.map);
        }
        let t_end = self.collide_solids(Vec2i { x, y: py }, width, height);
        if t_end != CollisionResult::JumpThrough {
            seen = false;
            descent = false;
        }
        let moved = !blocked;
        let a = &mut self.actors[idx];
        a.1.pos.y = py;
        a.1.y_remainder = new_rem;
        a.1.descent = descent;
        a.1.seen_wood = seen;
        moved
    }

    /// Horizontal mover: like [`World::move_v`] but along x, with the
    /// simpler platform rule: a one-way platform always grants passage
    /// sideways and engages both platform flags; there is no post-move
    /// recheck (see [`spec_h_run`]).
    pub fn move_h(&mut self, actor: Actor, dx: i64) -> (moved: bool)
        requires
            old(self).wf(),
            actor.0 < old(self).actors@.len(),
            old(self).actors@[actor.0 as int].1.pos_ok(),
            -0x4000_0000 <= dx <= 0x4000_0000,
        ensures
            final(self).wf(),
            World::same_tiles(*old(self), *final(self)),
            final(self).solids@ == old(self).solids@,
            final(self).actors@.len() == old(self).actors@.len(),
            forall|j: int|
                0 <= j < old(self).actors@.len() && j != actor.0 as int
                    ==> #[trigger] final(self).actors@[j] == old(self).actors@[j],
            ({
                let c0 = old(self).actors@[actor.0 as int].1;
                let rem1 = c0.x_remainder + dx;
                let mv = spec_round_px(rem1);
                let n = (if mv >= 0 { mv } else { -mv }) as nat;
                let sign: int = if mv > 0 { 1 } else if mv < 0 { -1 } else { 0 };
                let s0 = (MoveState { p: c0.pos.x as int, descent: c0.descent, seen_wood: c0.seen_wood });
                let run = spec_h_run(
                    old(self).wv(),
                    old(self).solids@,
                    c0.pos.y as int,
                    c0.width as int,
                    c0.height as int,
                    sign,
                    s0,
                    n,
                );
                let c1 = final(self).actors@[actor.0 as int].1;
                &&& moved == (run.1 == n)
                &&& final(self).actors@[actor.0 as int].0 == old(self).actors@[actor.0 as int].0
                &&& c1.pos.y == c0.pos.y
                &&& c1.pos.x == run.0.p
                &&& c1.x_remainder == rem1 - mv * (SUBPIXELS as int)
                &&& c1.y_remainder == c0.y_remainder
                &&& c1.descent == run.0.descent
                &&& c1.seen_wood == run.0.seen_wood
                &&& c1.width == c0.width
                &&& c1.height == c0.height
                &&& c1.collidable == c0.collidable
                &&& c1.squished == c0.squished
                &&& c1.squishers == c0.squishers
            }),
    {
        let idx = actor.0;
        let y = self.actors[idx].1.pos.y;
        let x0 = self.actors[idx].1.pos.x;
        let width = self.actors[idx].1.width;
        let height = self.actors[idx].1.height;
        proof {
            assert(old(self).actors@[idx as int].1.wf());
        }
        let rem1 = self.actors[idx].1.x_remainder + dx;
        let mv = round_px(rem1);
        proof {
            lemma_round_residual(rem1 as int);
            assert(-0x20_0000 <= mv <= 0x20_0000) by (nonlinear_arith)
                requires
                    -(SUBPIXELS as int) / 2 <= rem1 - mv * (SUBPIXELS as int) <= (
                    SUBPIXELS as int) / 2,
                    -0x4200_0000 <= rem1 <= 0x4200_0000,
                    SUBPIXELS == 1000,
            ;
        }
        let new_rem = rem1 - mv * SUBPIXELS;
        let sign: i64 = if mv > 0 {
            1
        } else if mv < 0 {
            -1
        } else {
            0
        };
        let mut remaining: i64 = if mv >= 0 {
            mv
        } else {
            -mv
        };
        let ghost n0: int = remaining as int;
        let ghost wv0 = old(self).wv();
        let ghost solids0 = old(self).solids@;
        let ghost s0 = (MoveState { p: x0 as int, descent: old(self).actors@[idx as int].1.descent, seen_wood: old(self).actors@[idx as int].1.seen_wood });
        let ghost total = spec_h_run(wv0, solids0, y as int, width as int, height as int, sign as int, s0, n0 as nat);

        let mut px = x0;
        let mut descent = self.actors[idx].1.descent;
        let mut seen = self.actors[idx].1.seen_wood;
        let mut blocked = false;
        let ghost mut done: int = 0;

        while remaining > 0
            invariant
                self.wf(),
                idx == actor.0,
                idx < self.actors@.len(),
                self.actors@ == old(self).actors@,
                self.solids@ == old(self).solids@,
                World::same_tiles(*old(self), *self),
                wv0 == old(self).wv(),
                solids0 == old(self).solids@,
                y == old(self).actors@[idx as int].1.pos.y,
                width == old(self).actors@[idx as int].1.width,
                height == old(self).actors@[idx as int].1.height,
                1 <= width <= 0x10_0000,
                1 <= height <= 0x10_0000,
                -0x8_0000_0000 <= y <= 0x8_0000_0000,
                -0x8_0000_0000 <= x0 <= 0x8_0000_0000,
                sign == 1 || sign == -1 || sign == 0,
                n0 > 0 ==> sign == 1 || sign == -1,
                0 <= done <= n0 <= 0x20_0000,
                x0 - done <= px <= x0 + done,
                !blocked ==> remaining == n0 - done,
                blocked ==> remaining == 0 && done < n0,
                blocked ==> spec_h_blocked(
                    wv0,
                    solids0,
                    y as int,
                    width as int,
                    height as int,
                    sign as int,
                    (MoveState { p: px as int, descent, seen_wood: seen }),
                ),
                ({
                    let cur = (MoveState { p: px as int, descent, seen_wood: seen });
                    let rest = spec_h_run(
                        wv0,
                        solids0,
                        y as int,
                        width as int,
                        height as int,
                        sign as int,
                        cur,
                        (n0 - done) as nat,
                    );
                    rest.0 == total.0 && done + rest.1 == total.1
                }),
            decreases remaining,
        {
            proof {
                lemma_same_world_view(old(self).map, self.map);
            }
            let t = self.collide_solids(Vec2i { x: px + sign, y }, width, height);
            if t == CollisionResult::JumpThrough {
                descent = true;
                seen = true;
            }
            if t == CollisionResult::Empty || t == CollisionResult::JumpThrough {
                px = px + sign;
                remaining = remaining - 1;
                proof {
                    done = done + 1;
                }
            } else {
                blocked = true;
                remaining = 0;
            }
        }

        let moved = !blocked;
        let a = &mut self.actors[idx];
        a.1.pos.x = px;
        a.1.x_remainder = new_rem;
        a.1.descent = descent;
        a.1.seen_wood = seen;
        moved
    }

    /// Move a solid by `(dx, dy)` (thousandths of a pixel). The solid itself
    /// moves unconditionally by the rounded whole-pixel displacement,
    /// carrying the fractions; on the way it carries the actors riding on
    /// its top edge and pushes the actors its destination footprint
    /// overlaps, squishing those that cannot move the full distance. See
    /// [`spec_actor_after_solid_move`] for the exact per-actor effect.
    pub fn solid_move(&mut self, solid: Solid, dx: i64, dy: i64)
        requires
            old(self).wf(),
            solid.0 < old(self).solids@.len(),
            old(self).solids@[solid.0 as int].1.pos_ok(),
            -0x100_0000 <= old(self).solids@[solid.0 as int].1.x_remainder <= 0x100_0000,
            -0x100_0000 <= old(self).solids@[solid.0 as int].1.y_remainder <= 0x100_0000,
            -0x100_0000 <= dx <= 0x100_0000,
            -0x100_0000 <= dy <= 0x100_0000,
            forall|j: int|
                0 <= j < old(self).actors@.len() ==> (#[trigger] old(self).actors@[j]).1.pos_ok(),
        ensures
            final(self).wf(),
            World::same_tiles(*old(self), *final(self)),
            final(self).solids@.len() == old(self).solids@.len(),
            final(self).actors@.len() == old(self).actors@.len(),
            forall|j: int|
                0 <= j < old(self).solids@.len() && j != solid.0 as int
                    ==> #[trigger] final(self).solids@[j] == old(self).solids@[j],
            ({
                let s0 = old(self).solids@[solid.0 as int].1;
                let s1 = final(self).solids@[solid.0 as int].1;
                let xr1 = s0.x_remainder + dx;
                let yr1 = s0.y_remainder + dy;
                let mx = spec_round_px(xr1);
                let my = spec_round_px(yr1);
                &&& final(self).solids@[solid.0 as int].0 == old(self).solids@[solid.0 as int].0
                &&& s1.pos.x == s0.pos.x + mx
                &&& s1.pos.y == s0.pos.y + my
                &&& s1.x_remainder == xr1 - mx * (SUBPIXELS as int)
                &&& s1.y_remainder == yr1 - my * (SUBPIXELS as int)
                &&& s1.collidable == true
                &&& s1.squished == s0.squished
                &&& s1.width == s0.width
                &&& s1.height == s0.height
                &&& s1.squishers == s0.squishers
                &&& s1.descent == s0.descent
                &&& s1.seen_wood == s0.seen_wood
            }),
            ({
                let s0 = old(self).solids@[solid.0 as int].1;
                let xr1 = s0.x_remainder + dx;
                let yr1 = s0.y_remainder + dy;
                let mx = spec_round_px(xr1);
                let solids_mid = spec_solids_mid(old(self).solids@, solid.0 as int, dx as int, dy as int);
                forall|j: int|
                    0 <= j < old(self).actors@.len() ==> #[trigger] final(self).actors@[j].0 == old(
                        self,
                    ).actors@[j].0 && spec_actor_after_solid_move(
                        old(self).wv(),
                        solids_mid,
                        s0,
                        mx,
                        solid,
                        old(self).actors@[j].1,
                        final(self).actors@[j].1,
                    )
            }),
    {
        let sid = solid.0;
        let s_pos = self.solids[sid].1.pos;
        let s_width = self.solids[sid].1.width;
        let s_height = self.solids[sid].1.height;
        proof {
            assert(old(self).solids@[sid as int].1.wf());
        }
        let xr1 = self.solids[sid].1.x_remainder + dx;
        let yr1 = self.solids[sid].1.y_remainder + dy;
        let mx = round_px(xr1);
        let my = round_px(yr1);
        proof {
            lemma_round_residual(xr1 as int);
            lemma_round_residual(yr1 as int);
            assert(-0x9000 <= mx <= 0x9000 && -0x9000 <= my <= 0x9000) by (nonlinear_arith)
                requires
                    -(SUBPIXELS as int) / 2 <= xr1 - mx * (SUBPIXELS as int) <= (
                    SUBPIXELS as int) / 2,
                    -(SUBPIXELS as int) / 2 <= yr1 - my * (SUBPIXELS as int) <= (
                    SUBPIXELS as int) / 2,
                    -0x200_0000 <= xr1 <= 0x200_0000,
                    -0x200_0000 <= yr1 <= 0x200_0000,
                    SUBPIXELS == 1000,
            ;
        }
        let sc = &mut self.solids[sid].1;
        sc.x_remainder = xr1;
        sc.y_remainder = yr1;
        sc.collidable = false;
        let ghost wv0 = old(self).wv();
        let ghost solids_mid = spec_solids_mid(old(self).solids@, sid as int, dx as int, dy as int);
        proof {
            assert(self.solids@ =~= solids_mid);
        }
        let ghost s0 = old(self).solids@[sid as int].1;

        let riding_rect = Rect { x: s_pos.x, y: s_pos.y - 1, w: s_width as i64, h: 1 };
        let pushing_rect = Rect {
            x: s_pos.x + mx,
            y: s_pos.y,
            w: s_width as i64,
            h: s_height as i64,
        };
        let dxm = mx * SUBPIXELS;

        let n = self.actors.len();
        let mut i: usize = 0;
        while i < n
            invariant
                i <= n,
                n == old(self).actors@.len(),
                self.wf(),
                sid == solid.0 < old(self).solids@.len(),
                World::same_tiles(*old(self), *self),
                wv0 == old(self).wv(),
                s0 == old(self).solids@[sid as int].1,
                s0.wf(),
                s0.pos_ok(),
                s_pos == s0.pos,
                s_width == s0.width,
                s_height == s0.height,
                -0x9000 <= mx <= 0x9000,
                dxm == mx * (SUBPIXELS as int),
                riding_rect == rect_at(s0.pos.x as int, s0.pos.y - 1, s0.width as int, 1),
                pushing_rect == rect_at(
                    s0.pos.x + mx,
                    s0.pos.y as int,
                    s0.width as int,
                    s0.height as int,
                ),
                self.solids@ == solids_mid,
                solids_mid == spec_solids_mid(old(self).solids@, sid as int, dx as int, dy as int),
                self.actors@.len() == n,
                forall|j: int|
                    i <= j < n ==> #[trigger] self.actors@[j] == old(self).actors@[j],
                forall|j: int|
                    0 <= j < n ==> (#[trigger] old(self).actors@[j]).1.pos_ok() && old(
                        self,
                    ).actors@[j].1.wf(),
                forall|j: int|
                    0 <= j < i ==> #[trigger] self.actors@[j].0 == old(self).actors@[j].0
                        && spec_actor_after_solid_move(
                        wv0,
                        solids_mid,
                        s0,
                        mx as int,
                        solid,
                        old(self).actors@[j].1,
                        self.actors@[j].1,
                    ),
            decreases n - i,
        {
            let a_pos = self.actors[i].1.pos;
            let a_width = self.actors[i].1.width;
            let a_height = self.actors[i].1.height;
            let a_squished = self.actors[i].1.squished;
            proof {
                assert(old(self).actors@[i as int].1.wf());
            }
            let rider_rect = Rect {
                x: a_pos.x,
                y: a_pos.y + a_height as i64 - 1,
                w: a_width as i64,
                h: 1,
            };
            let actor_rect = Rect {
                x: a_pos.x,
                y: a_pos.y,
                w: a_width as i64,
                h: a_height as i64,
            };
            let riding = rects_overlap(riding_rect, rider_rect);
            let overlaps_push = rects_overlap(pushing_rect, actor_rect);
            let pushing = !riding && overlaps_push && !a_squished;
            if !overlaps_push {
                let a = &mut self.actors[i].1;
                a.unsquish_from(solid);
            }
            if riding || pushing {
                proof {
                    lemma_same_world_view(old(self).map, self.map);
                }
                let moved = self.move_h(Actor(i), dxm);
                if pushing && !moved {
                    let a = &mut self.actors[i].1;
                    a.squished = true;
                    a.add_squisher(solid);
                }
            }
            proof {
                let c0 = old(self).actors@[i as int].1;
                let c1 = self.actors@[i as int].1;
                assert(rider_rect == rect_at(
                    c0.pos.x as int,
                    c0.pos.y + c0.height - 1,
                    c0.width as int,
                    1,
                ));
                assert(actor_rect == c0.spec_rect());
                assert(spec_actor_after_solid_move(
                    wv0,
                    solids_mid,
                    s0,
                    mx as int,
                    solid,
                    c0,
                    c1,
                ));
            }
            i = i + 1;
        }

        let sc2 = &mut self.solids[sid].1;
        sc2.collidable = true;
        sc2.pos.x = sc2.pos.x + mx;
        sc2.pos.y = sc2.pos.y + my;
        sc2.x_remainder = sc2.x_remainder - mx * SUBPIXELS;
        sc2.y_remainder = sc2.y_remainder - my * SUBPIXELS;
        proof {
            assert forall|j: int| 0 <= j < old(self).solids@.len() && j != sid as int
                implies #[trigger] self.solids@[j] == old(self).solids@[j] by {
            }
        }
    }

    /// Persist the world: colliders are per-body transient state, so what
    /// is saved is the tile store (see [`ChunkMap::save`]).
    pub fn save(&self) -> (s: String)
        requires
            self.wf(),
        ensures
            s@ == crate::codec::b64_of(crate::codec::spec_encode_model(self.map.model())),
    {
        self.map.save()
    }

    /// Restore a world from a save blob: the tile store comes back exactly
    /// as saved, with no bodies; the absence marker on a blob that does not
    /// decode, and the caller falls back to a fresh world.
    pub fn load(data: &str) -> (r: Option<World>)
        ensures
            forall|m: ChunkMap|
                m.wf() && data@ == #[trigger] crate::codec::b64_of(
                    crate::codec::spec_encode_model(m.model()),
                ) ==> (r matches Some(w) && w.wf() && w.map.model() == m.model()),
            r matches Some(w) ==> w.wf() && w.actors@.len() == 0 && w.solids@.len() == 0,
    {
        match ChunkMap::load(data) {
            Some(map) => Some(World { map, actors: Vec::new(), solids: Vec::new() }),
            None => None,
        }
    }

    /// Whether a probe rectangle at `pos`, with the actor's extent, would
    /// block that actor: solids and dynamic colliders always block; a
    /// one-way platform blocks only a body that has not engaged descent.
    pub fn collide_check(&mut self, collider: Actor, pos: Vec2i) -> (r: bool)
        requires
            old(self).wf(),
            collider.0 < old(self).actors@.len(),
            in_world_range(pos.x as int),
            in_world_range(pos.y as int),
            in_world_range(pos.x as int + old(self).actors@[collider.0 as int].1.width as int),
            in_world_range(pos.y as int + old(self).actors@[collider.0 as int].1.height as int),
        ensures
            ({
                let c = old(self).actors@[collider.0 as int].1;
                let t = spec_collide_solids(
                    old(self).wv(),
                    old(self).solids@,
                    (Rect { x: pos.x, y: pos.y, w: c.width as i64, h: c.height as i64 }),
                );
                r == spec_blocks_probe(t, c.descent)
            }),
            final(self).wf(),
            World::same_bodies_and_tiles(*old(self), *final(self)),
    {
        let width = self.actors[collider.0].1.width;
        let height = self.actors[collider.0].1.height;
        let descent = self.actors[collider.0].1.descent;
        proof {
            assert(old(self).actors@[collider.0 as int].1.wf());
        }
        let tile = self.collide_solids(pos, width, height);
        if descent {
            tile == CollisionResult::Solid || tile == CollisionResult::Collider
        } else {
            tile == CollisionResult::Solid || tile == CollisionResult::Collider || tile
                == CollisionResult::JumpThrough
        }
    }
}

} // verus!
