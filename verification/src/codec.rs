//! Persistence of the world store: a verified binary codec from the store
//! to a byte blob and back, wrapped in base64 for the key-value stores the
//! host keeps saves in. Decoding is total: a blob that does not parse
//! yields the absence marker, never a panic.
//!
//! Layout, all integers little-endian: one tag byte; the focus chunk as two
//! 64-bit coordinates; the chunk count as 64 bits; then each chunk as its
//! two 64-bit coordinates followed by one byte per tile, row-major. The
//! tile and chunk size constants are fixed by this library and are not
//! stored.

use vstd::prelude::*;
use vstd::bytes::{
    lemma_auto_spec_u64_to_from_le_bytes, spec_u64_from_le_bytes, spec_u64_to_le_bytes,
    u64_from_le_bytes, u64_to_le_bytes,
};
use base64::Engine;
use crate::{CHUNK_TILES_X, CHUNK_TILES_Y};
use crate::grid::Grid;
use crate::position::{ChunkPos, Vec2i};
use crate::tile::TileId;
use crate::tile_map::{chunk_cell_count, Chunk, ChunkMap};

verus! {

/// Cells in one encoded chunk.
pub open spec fn cells() -> int {
    chunk_cell_count()
}

/// Bytes in one encoded store entry: two coordinates and the tiles.
pub open spec fn entry_bytes() -> int {
    16 + cells()
}

/// Bytes in the encoded header: tag, focus, chunk count.
pub open spec fn header_bytes() -> int {
    25
}

/// The byte code of a tile identifier.
pub open spec fn spec_tile_code(t: TileId) -> u8 {
    match t {
        TileId::Air => 0,
        TileId::Dirt => 1,
        TileId::WoodPlanks => 2,
        TileId::WoodLog => 3,
        TileId::GenericOre => 4,
    }
}

/// The tile identifier of a byte code, if it is one.
pub open spec fn spec_tile_of_code(b: u8) -> Option<TileId> {
    if b == 0 {
        Some(TileId::Air)
    } else if b == 1 {
        Some(TileId::Dirt)
    } else if b == 2 {
        Some(TileId::WoodPlanks)
    } else if b == 3 {
        Some(TileId::WoodLog)
    } else if b == 4 {
        Some(TileId::GenericOre)
    } else {
        None
    }
}

/// Encode one tile.
fn tile_code(t: TileId) -> (b: u8)
    ensures
        b == spec_tile_code(t),
{
    match t {
        TileId::Air => 0,
        TileId::Dirt => 1,
        TileId::WoodPlanks => 2,
        TileId::WoodLog => 3,
        TileId::GenericOre => 4,
    }
}

/// Decode one tile.
fn tile_of_code(b: u8) -> (t: Option<TileId>)
    ensures
        t == spec_tile_of_code(b),
{
    if b == 0 {
        Some(TileId::Air)
    } else if b == 1 {
        Some(TileId::Dirt)
    } else if b == 2 {
        Some(TileId::WoodPlanks)
    } else if b == 3 {
        Some(TileId::WoodLog)
    } else if b == 4 {
        Some(TileId::GenericOre)
    } else {
        None
    }
}

/// A 64-bit signed value as eight little-endian bytes, via its two's
/// complement bits.
pub open spec fn spec_i64_le(x: i64) -> Seq<u8> {
    spec_u64_to_le_bytes(x as u64)
}

/// The 64-bit signed value of eight little-endian bytes.
pub open spec fn spec_i64_from_le(s: Seq<u8>) -> i64 {
    spec_u64_from_le_bytes(s) as i64
}

/// Round trip of the signed byte codec.
pub proof fn lemma_i64_le_round_trip(x: i64)
    ensures
        spec_i64_le(x).len() == 8,
        spec_i64_from_le(spec_i64_le(x)) == x,
{
    lemma_auto_spec_u64_to_from_le_bytes();
    assert(x as u64 as i64 == x) by (bit_vector);
}

/// Encode a 64-bit signed value.
fn i64_le(x: i64) -> (s: Vec<u8>)
    ensures
        s@ == spec_i64_le(x),
        s@.len() == 8,
{
    u64_to_le_bytes(x as u64)
}

/// Decode a 64-bit signed value.
fn i64_from_le(s: &[u8]) -> (x: i64)
    requires
        s@.len() == 8,
    ensures
        x == spec_i64_from_le(s@),
{
    u64_from_le_bytes(s) as i64
}

/// The abstract content of a store: the chunk entries in store order, the
/// focus, and the tag. The size constants are fixed and carried by the
/// format itself.
pub ghost struct StoreModel {
    pub chunks: Seq<((i64, i64), Seq<TileId>)>,
    pub focus: (i64, i64),
    pub tag: u8,
}

impl StoreModel {
    /// Every chunk has the fixed cell count, the count fits its field, and
    /// no position repeats.
    pub open spec fn wf(self) -> bool {
        &&& self.chunks.len() < 0x1_0000_0000_0000_0000
        &&& forall|i: int| 0 <= i < self.chunks.len() ==> (#[trigger] self.chunks[i]).1.len() == cells()
        &&& forall|i: int, j: int|
            0 <= i < j < self.chunks.len() ==> (#[trigger] self.chunks[i]).0 != (
            #[trigger] self.chunks[j]).0
    }
}

impl ChunkMap {
    /// What this store abstractly holds.
    pub open spec fn model(self) -> StoreModel {
        StoreModel {
            chunks: Seq::new(
                self.store@.len(),
                |i: int|
                    (
                        (self.store@[i].0.0.x, self.store@[i].0.0.y),
                        self.store@[i].1.contents(),
                    ),
            ),
            focus: (self.focus.0.x, self.focus.0.y),
            tag: self.tag,
        }
    }
}

/// The tile bytes of one chunk, row-major.
pub open spec fn spec_encode_tiles(c: Seq<TileId>) -> Seq<u8> {
    Seq::new(c.len(), |i: int| spec_tile_code(c[i]))
}

/// The bytes of one store entry.
pub open spec fn spec_encode_entry(e: ((i64, i64), Seq<TileId>)) -> Seq<u8> {
    spec_i64_le(e.0.0) + spec_i64_le(e.0.1) + spec_encode_tiles(e.1)
}

/// The bytes of the store entries, in order.
pub open spec fn spec_encode_entries(chunks: Seq<((i64, i64), Seq<TileId>)>) -> Seq<u8>
    decreases chunks.len(),
{
    if chunks.len() == 0 {
        Seq::empty()
    } else {
        spec_encode_entries(chunks.drop_last()) + spec_encode_entry(chunks.last())
    }
}

/// The encoded blob of a store model.
pub open spec fn spec_encode_model(s: StoreModel) -> Seq<u8> {
    seq![s.tag] + spec_i64_le(s.focus.0) + spec_i64_le(s.focus.1) + spec_u64_to_le_bytes(
        s.chunks.len() as u64,
    ) + spec_encode_entries(s.chunks)
}

/// Length of the encoded entries.
pub proof fn lemma_encode_entries_len(chunks: Seq<((i64, i64), Seq<TileId>)>)
    requires
        forall|i: int| 0 <= i < chunks.len() ==> (#[trigger] chunks[i]).1.len() == cells(),
    ensures
        spec_encode_entries(chunks).len() == entry_bytes() * chunks.len(),
    decreases chunks.len(),
{
    if chunks.len() == 0 {
    } else {
        lemma_encode_entries_len(chunks.drop_last());
        lemma_auto_spec_u64_to_from_le_bytes();
        assert(chunks.last().1.len() == cells());
        assert(entry_bytes() * chunks.len() == entry_bytes() * (chunks.len() - 1) + entry_bytes())
            by (nonlinear_arith);
    }
}

/// Each entry occupies its own fixed-size slice of the encoded entries.
pub proof fn lemma_encode_entries_slice(chunks: Seq<((i64, i64), Seq<TileId>)>, k: int)
    requires
        forall|i: int| 0 <= i < chunks.len() ==> (#[trigger] chunks[i]).1.len() == cells(),
        0 <= k < chunks.len(),
    ensures
        spec_encode_entries(chunks).subrange(entry_bytes() * k, entry_bytes() * (k + 1))
            == spec_encode_entry(chunks[k]),
    decreases chunks.len(),
{
    lemma_encode_entries_len(chunks);
    lemma_auto_spec_u64_to_from_le_bytes();
    let whole = spec_encode_entries(chunks);
    if k == chunks.len() - 1 {
        lemma_encode_entries_len(chunks.drop_last());
        assert(entry_bytes() * k == whole.len() - entry_bytes()) by (nonlinear_arith)
            requires
                whole.len() == entry_bytes() * chunks.len(),
                k == chunks.len() - 1,
        ;
        assert(chunks.last().1.len() == cells());
        assert(whole.subrange(entry_bytes() * k, entry_bytes() * (k + 1)) =~= spec_encode_entry(
            chunks[k],
        ));
    } else {
        lemma_encode_entries_slice(chunks.drop_last(), k);
        lemma_encode_entries_len(chunks.drop_last());
        assert(0 <= entry_bytes() * k && entry_bytes() * k <= entry_bytes() * (k + 1)
            && entry_bytes() * (k + 1) <= entry_bytes() * (chunks.len() - 1)) by (nonlinear_arith)
            requires
                0 <= k,
                k + 1 <= chunks.len() - 1,
                entry_bytes() > 0,
        ;
        assert(chunks.drop_last()[k] == chunks[k]);
        assert(whole.subrange(entry_bytes() * k, entry_bytes() * (k + 1)) =~= spec_encode_entries(
            chunks.drop_last(),
        ).subrange(entry_bytes() * k, entry_bytes() * (k + 1)));
    }
}

/// The byte holding tile `i` of entry `k` in an encoded blob.
pub open spec fn spec_tile_byte(b: Seq<u8>, k: int, i: int) -> u8 {
    b[header_bytes() + entry_bytes() * k + 16 + i]
}

/// Every tile byte of entry `k` is a valid tile code.
pub open spec fn spec_entry_tiles_ok(b: Seq<u8>, k: int) -> bool {
    forall|i: int|
        0 <= i < cells() ==> (#[trigger] spec_tile_of_code(spec_tile_byte(b, k, i))) is Some
}

/// Entry `k` of an encoded blob, decoded.
pub open spec fn spec_entry_at(b: Seq<u8>, k: int) -> ((i64, i64), Seq<TileId>) {
    let off = header_bytes() + entry_bytes() * k;
    (
        (
            spec_i64_from_le(b.subrange(off, off + 8)),
            spec_i64_from_le(b.subrange(off + 8, off + 16)),
        ),
        Seq::new(cells() as nat, |i: int| spec_tile_of_code(spec_tile_byte(b, k, i)).unwrap()),
    )
}

/// All entries of an encoded blob holding `n` of them, decoded.
pub open spec fn spec_decoded_chunks(b: Seq<u8>, n: int) -> Seq<((i64, i64), Seq<TileId>)> {
    Seq::new(n as nat, |k: int| spec_entry_at(b, k))
}

/// No chunk position repeats.
pub open spec fn spec_positions_distinct(chunks: Seq<((i64, i64), Seq<TileId>)>) -> bool {
    forall|i: int, j: int|
        0 <= i < j < chunks.len() ==> (#[trigger] chunks[i]).0 != (#[trigger] chunks[j]).0
}

/// What a byte blob decodes to: the absence marker unless the length, every
/// tile byte, and the distinctness of the chunk positions all check out.
pub open spec fn spec_decode_model(b: Seq<u8>) -> Option<StoreModel> {
    if b.len() < header_bytes() {
        None
    } else {
        let n = spec_u64_from_le_bytes(b.subrange(17, 25)) as int;
        if b.len() != header_bytes() + entry_bytes() * n {
            None
        } else if !(forall|k: int| 0 <= k < n ==> #[trigger] spec_entry_tiles_ok(b, k)) {
            None
        } else if !spec_positions_distinct(spec_decoded_chunks(b, n)) {
            None
        } else {
            Some(
                StoreModel {
                    chunks: spec_decoded_chunks(b, n),
                    focus: (
                        spec_i64_from_le(b.subrange(1, 9)),
                        spec_i64_from_le(b.subrange(9, 17)),
                    ),
                    tag: b[0],
                },
            )
        }
    }
}

/// The codec round trip: a well-formed store model decodes back from its
/// own encoding, exactly.
pub proof fn lemma_store_round_trip(s: StoreModel)
    requires
        s.wf(),
    ensures
        spec_decode_model(spec_encode_model(s)) == Some(s),
{
    let b = spec_encode_model(s);
    let n = s.chunks.len() as int;
    lemma_auto_spec_u64_to_from_le_bytes();
    lemma_encode_entries_len(s.chunks);
    assert(b.len() == header_bytes() + entry_bytes() * n);
    assert(b[0] == s.tag);
    assert(b.subrange(1, 9) =~= spec_i64_le(s.focus.0));
    assert(b.subrange(9, 17) =~= spec_i64_le(s.focus.1));
    assert(b.subrange(17, 25) =~= spec_u64_to_le_bytes(n as u64));
    lemma_i64_le_round_trip(s.focus.0);
    lemma_i64_le_round_trip(s.focus.1);
    assert(spec_u64_from_le_bytes(b.subrange(17, 25)) == n as u64);
    assert forall|k: int| 0 <= k < n implies #[trigger] spec_entry_tiles_ok(b, k) && spec_entry_at(
        b,
        k,
    ) == s.chunks[k] by {
        lemma_entry_decodes(s, k);
    }
    assert forall|k: int| 0 <= k < n implies #[trigger] spec_decoded_chunks(b, n)[k]
        == s.chunks[k] by {
        lemma_entry_decodes(s, k);
    }
    assert(spec_decoded_chunks(b, n) =~~= s.chunks);
    let got = spec_decode_model(b);
    assert(got is Some);
    assert(got.unwrap().chunks == s.chunks);
    assert(got.unwrap() == s);
}

/// One entry of an encoded well-formed model decodes back to itself.
proof fn lemma_entry_decodes(s: StoreModel, k: int)
    requires
        s.wf(),
        0 <= k < s.chunks.len(),
    ensures
        spec_entry_tiles_ok(spec_encode_model(s), k),
        spec_entry_at(spec_encode_model(s), k) == s.chunks[k],
{
    let b = spec_encode_model(s);
    let n = s.chunks.len() as int;
    let off = header_bytes() + entry_bytes() * k;
    lemma_auto_spec_u64_to_from_le_bytes();
    lemma_encode_entries_len(s.chunks);
    lemma_encode_entries_slice(s.chunks, k);
    assert(0 <= entry_bytes() * k && entry_bytes() * (k + 1) <= entry_bytes() * n)
        by (nonlinear_arith)
        requires
            0 <= k < n,
            entry_bytes() > 0,
    ;
    let hdr = seq![s.tag] + spec_i64_le(s.focus.0) + spec_i64_le(s.focus.1)
        + spec_u64_to_le_bytes(s.chunks.len() as u64);
    assert(hdr.len() == header_bytes());
    assert(b =~= hdr + spec_encode_entries(s.chunks));
    let slice = spec_encode_entries(s.chunks).subrange(entry_bytes() * k, entry_bytes() * (k + 1));
    assert(entry_bytes() * (k + 1) == entry_bytes() * k + entry_bytes()) by (nonlinear_arith);
    assert forall|j: int| 0 <= j < entry_bytes() implies #[trigger] b[off + j]
        == spec_encode_entries(s.chunks)[entry_bytes() * k + j] by {
        assert(b == hdr + spec_encode_entries(s.chunks));
        assert(b[off + j] == spec_encode_entries(s.chunks)[off + j - header_bytes()]);
    }
    assert(b.subrange(off, off + entry_bytes()) =~= slice);
    let e = s.chunks[k];
    assert(e.1.len() == cells());
    assert(b.subrange(off, off + 8) =~= spec_encode_entry(e).subrange(0, 8));
    assert(spec_encode_entry(e).subrange(0, 8) =~= spec_i64_le(e.0.0));
    assert(b.subrange(off + 8, off + 16) =~= spec_encode_entry(e).subrange(8, 16));
    assert(spec_encode_entry(e).subrange(8, 16) =~= spec_i64_le(e.0.1));
    lemma_i64_le_round_trip(e.0.0);
    lemma_i64_le_round_trip(e.0.1);
    assert forall|i: int| 0 <= i < cells() implies #[trigger] spec_tile_byte(b, k, i)
        == spec_tile_code(e.1[i]) by {
        assert(spec_tile_byte(b, k, i) == b.subrange(off, off + entry_bytes())[16 + i]);
        assert(spec_encode_entry(e)[16 + i] == spec_encode_tiles(e.1)[i]);
    }
    assert(spec_entry_at(b, k).1 =~= e.1);
    assert(spec_entry_at(b, k) == e);
}

impl ChunkMap {
    /// Decode a byte blob back into a store; the absence marker on any
    /// malformed blob.
    pub fn from_bytes(b: &Vec<u8>) -> (r: Option<ChunkMap>)
        ensures
            match r {
                Some(m) => m.wf() && spec_decode_model(b@) == Some(m.model()),
                None => spec_decode_model(b@) is None,
            },
    {
        let len = b.len();
        if len < 25 {
            return None;
        }
        let tag = b[0];
        let fx = i64_from_le(vstd::slice::slice_subrange(b.as_slice(), 1, 9));
        let fy = i64_from_le(vstd::slice::slice_subrange(b.as_slice(), 9, 17));
        let n64 = u64_from_le_bytes(vstd::slice::slice_subrange(b.as_slice(), 17, 25));
        let expected: u128 = 25 + 240u128 * (n64 as u128);
        if (len as u128) != expected {
            proof {
                assert(b@.len() != header_bytes() + entry_bytes() * (n64 as int));
            }
            return None;
        }
        proof {
            assert(b@.len() == header_bytes() + entry_bytes() * (n64 as int));
            assert(240 * (n64 as int) >= n64 as int) by (nonlinear_arith);
        }
        let n = n64 as usize;
        let ghost nn = n as int;
        proof {
            assert(nn == spec_u64_from_le_bytes(b@.subrange(17, 25)) as int);
        }
        let mut store: Vec<(ChunkPos, Chunk)> = Vec::new();
        let mut k: usize = 0;
        while k < n
            invariant
                k <= n,
                nn == n as int,
                nn == spec_u64_from_le_bytes(b@.subrange(17, 25)) as int,
                n <= len,
                len == b@.len(),
                b@.len() == header_bytes() + entry_bytes() * nn,
                store@.len() == k,
                forall|j: int| 0 <= j < k ==> spec_entry_tiles_ok(b@, j),
                forall|j: int|
                    0 <= j < k ==> {
                        let e = spec_entry_at(b@, j);
                        &&& (#[trigger] store@[j]).1.wf()
                        &&& store@[j].0 == (ChunkPos(Vec2i { x: e.0.0, y: e.0.1 }))
                        &&& store@[j].1.contents() == e.1
                    },
            decreases n - k,
        {
            proof {
                assert(0 <= entry_bytes() * (k as int) && entry_bytes() * (k as int + 1)
                    <= entry_bytes() * nn) by (nonlinear_arith)
                    requires
                        0 <= k as int && (k as int) < nn,
                ;
                assert(entry_bytes() * (k as int + 1) == entry_bytes() * (k as int)
                    + entry_bytes()) by (nonlinear_arith);
            }
            let off: usize = 25 + 240 * k;
            let px = i64_from_le(vstd::slice::slice_subrange(b.as_slice(), off, off + 8));
            let py = i64_from_le(vstd::slice::slice_subrange(b.as_slice(), off + 8, off + 16));
            let mut array: Vec<TileId> = Vec::new();
            let mut i: usize = 0;
            while i < 224
                invariant
                    i <= 224,
                    len == b@.len(),
                    b@.len() == header_bytes() + entry_bytes() * nn,
                    nn == n as int,
                    k < n,
                    off == 25 + 240 * (k as int),
                    off + 240 <= len,
                    array@.len() == i,
                    forall|j: int|
                        0 <= j < i ==> (#[trigger] spec_tile_of_code(spec_tile_byte(b@, k as int, j)))
                            is Some,
                    forall|j: int|
                        0 <= j < i ==> #[trigger] array@[j] == spec_tile_of_code(
                            spec_tile_byte(b@, k as int, j),
                        ).unwrap(),
                decreases 224 - i,
            {
                let code = b[off + 16 + i];
                proof {
                    assert(code == spec_tile_byte(b@, k as int, i as int));
                }
                match tile_of_code(code) {
                    Some(t) => {
                        array.push(t);
                    },
                    None => {
                        proof {
                            assert(!spec_entry_tiles_ok(b@, k as int));
                        }
                        return None;
                    },
                }
                i = i + 1;
            }
            let grid = Grid { array, width: 16, height: 14 };
            store.push((ChunkPos(Vec2i { x: px, y: py }), Chunk(grid)));
            proof {
                let e = spec_entry_at(b@, k as int);
                assert(store@.last().1.contents() =~= e.1);
            }
            k = k + 1;
        }
        let mut i: usize = 0;
        while i < n
            invariant
                i <= n,
                nn == n as int,
                nn == spec_u64_from_le_bytes(b@.subrange(17, 25)) as int,
                b@.len() == header_bytes() + entry_bytes() * nn,
                store@.len() == n as int,
                forall|j: int| 0 <= j < n ==> spec_entry_tiles_ok(b@, j),
                forall|j: int|
                    0 <= j < n ==> {
                        let e = spec_entry_at(b@, j);
                        &&& (#[trigger] store@[j]).1.wf()
                        &&& store@[j].0 == (ChunkPos(Vec2i { x: e.0.0, y: e.0.1 }))
                        &&& store@[j].1.contents() == e.1
                    },
                forall|a: int, c: int|
                    0 <= a < c < store@.len() && c < i ==> (#[trigger] store@[a]).0 != (
                    #[trigger] store@[c]).0,
            decreases n - i,
        {
            let mut j: usize = 0;
            while j < i
                invariant
                    j <= i < n,
                    nn == n as int,
                nn == spec_u64_from_le_bytes(b@.subrange(17, 25)) as int,
                    b@.len() == header_bytes() + entry_bytes() * nn,
                    store@.len() == n as int,
                    forall|a: int| 0 <= a < n ==> spec_entry_tiles_ok(b@, a),
                    forall|a: int|
                        0 <= a < n ==> {
                            let e = spec_entry_at(b@, a);
                            &&& (#[trigger] store@[a]).1.wf()
                            &&& store@[a].0 == (ChunkPos(Vec2i { x: e.0.0, y: e.0.1 }))
                            &&& store@[a].1.contents() == e.1
                        },
                    forall|a: int, c: int|
                        0 <= a < c < store@.len() && c < i ==> (#[trigger] store@[a]).0 != (
                        #[trigger] store@[c]).0,
                    forall|a: int| 0 <= a < j ==> (#[trigger] store@[a]).0 != store@[i as int].0,
                decreases i - j,
            {
                if store[j].0 == store[i].0 {
                    proof {
                        let chunks = spec_decoded_chunks(b@, nn);
                        assert(chunks[j as int].0 == chunks[i as int].0);
                        assert(!spec_positions_distinct(chunks));
                    }
                    return None;
                }
                j = j + 1;
            }
            i = i + 1;
        }
        let m = ChunkMap {
            store,
            focus: ChunkPos(Vec2i { x: fx, y: fy }),
            tile_size: Vec2i { x: crate::TILE_SIZE, y: crate::TILE_SIZE },
            chunk_size: Vec2i { x: CHUNK_TILES_X, y: CHUNK_TILES_Y },
            tag,
        };
        proof {
            assert forall|a: int, c: int| 0 <= a < c < m.store@.len() implies (
            #[trigger] m.store@[a]).0 != (#[trigger] m.store@[c]).0 by {
            }
            assert(m.wf());
            let chunks = spec_decoded_chunks(b@, nn);
            assert forall|j: int| 0 <= j < nn implies #[trigger] m.model().chunks[j]
                == chunks[j] by {
                let e = spec_entry_at(b@, j);
                assert(m.store@[j].0 == (ChunkPos(Vec2i { x: e.0.0, y: e.0.1 })));
                assert(m.store@[j].1.contents() == e.1);
            }
            assert(m.model().chunks =~~= chunks);
            assert(spec_positions_distinct(chunks));
            assert(spec_decode_model(b@) == Some(m.model()));
        }
        Some(m)
    }
}

/// The standard base64 text of a byte sequence; a pure function of the
/// bytes alone.
pub uninterp spec fn b64_of(b: Seq<u8>) -> Seq<char>;

/// Relies on base64's standard-alphabet, padded engine: `Engine::encode`
/// computes a text that depends on the input bytes alone.
#[verifier::external_body]
fn b64_encode(b: &Vec<u8>) -> (r: String)
    ensures
        r@ == b64_of(b@),
{
    base64::engine::general_purpose::STANDARD.encode(b.as_slice())
}

/// Relies on base64's standard-alphabet, padded engine: `Engine::decode` of
/// the standard encoding of any byte sequence returns exactly those bytes;
/// a string that does not decode yields the absence marker.
#[verifier::external_body]
fn b64_decode(s: &str) -> (r: Option<Vec<u8>>)
    ensures
        match r {
            Some(v) => forall|b: Seq<u8>| s@ == b64_of(b) ==> v@ == b,
            None => forall|b: Seq<u8>| s@ != b64_of(b),
        },
{
    base64::engine::general_purpose::STANDARD.decode(s.as_bytes()).ok()
}

/// A well-formed store abstracts to a well-formed model.
pub proof fn lemma_map_model_wf(m: ChunkMap)
    requires
        m.wf(),
        m.store@.len() < 0x1_0000_0000_0000_0000,
    ensures
        m.model().wf(),
{
    let md = m.model();
    assert forall|i: int| 0 <= i < md.chunks.len() implies (#[trigger] md.chunks[i]).1.len()
        == cells() by {
        assert(m.store@[i].1.wf());
    }
    assert forall|i: int, j: int| 0 <= i < j < md.chunks.len() implies (
    #[trigger] md.chunks[i]).0 != (#[trigger] md.chunks[j]).0 by {
        assert(m.store@[i].0 != m.store@[j].0);
    }
}

impl ChunkMap {
    /// The whole store as one opaque text blob: base64 of the binary
    /// encoding.
    pub fn save(&self) -> (s: String)
        requires
            self.wf(),
        ensures
            s@ == b64_of(spec_encode_model(self.model())),
    {
        let bytes = self.to_bytes();
        b64_encode(&bytes)
    }

    /// Restore a store from a save blob. The save of any well-formed store
    /// restores a store with the same chunks, focus, sizes and tag; a blob
    /// that does not decode yields the absence marker, and the caller falls
    /// back to a fresh store.
    pub fn load(data: &str) -> (r: Option<ChunkMap>)
        ensures
            forall|m: ChunkMap|
                m.wf() && data@ == #[trigger] b64_of(spec_encode_model(m.model())) ==> (r matches Some(m2)
                    && m2.wf() && m2.model() == m.model()),
            r matches Some(m2) ==> m2.wf(),
    {
        match b64_decode(data) {
            None => None,
            Some(bytes) => {
                let r = ChunkMap::from_bytes(&bytes);
                proof {
                    broadcast use vstd::std_specs::vec::axiom_spec_len;

                    assert forall|m: ChunkMap|
                        m.wf() && data@ == #[trigger] b64_of(spec_encode_model(m.model())) implies (r matches Some(
                        m2,
                    ) && m2.wf() && m2.model() == m.model()) by {
                        assert(bytes@ == spec_encode_model(m.model()));
                        assert(vstd::std_specs::vec::spec_vec_len(&m.store) == m.store@.len());
                        lemma_map_model_wf(m);
                        lemma_store_round_trip(m.model());
                    }
                }
                r
            },
        }
    }
}

/// Encode the tiles of one chunk, appending to `out`.
fn encode_tiles_into(c: &Chunk, out: &mut Vec<u8>)
    requires
        c.wf(),
    ensures
        final(out)@ == old(out)@ + spec_encode_tiles(c.contents()),
{
    let n = c.0.array.len();
    let mut i: usize = 0;
    while i < n
        invariant
            i <= n,
            n == c.0.array@.len(),
            out@ == old(out)@ + spec_encode_tiles(c.contents()).take(i as int),
        decreases n - i,
    {
        let b = tile_code(c.0.array[i]);
        out.push(b);
        proof {
            assert(out@ =~= old(out)@ + spec_encode_tiles(c.contents()).take(i as int + 1));
        }
        i = i + 1;
    }
    proof {
        assert(spec_encode_tiles(c.contents()).take(n as int) =~= spec_encode_tiles(c.contents()));
    }
}

impl ChunkMap {
    /// Encode this store as a byte blob.
    pub fn to_bytes(&self) -> (b: Vec<u8>)
        requires
            self.wf(),
        ensures
            b@ == spec_encode_model(self.model()),
    {
        let mut out: Vec<u8> = Vec::new();
        out.push(self.tag);
        let mut fx = i64_le(self.focus.0.x);
        out.append(&mut fx);
        let mut fy = i64_le(self.focus.0.y);
        out.append(&mut fy);
        let mut cnt = u64_to_le_bytes(self.store.len() as u64);
        out.append(&mut cnt);
        let ghost header = out@;
        proof {
            assert(header =~= seq![self.tag] + spec_i64_le(self.focus.0.x) + spec_i64_le(
                self.focus.0.y,
            ) + spec_u64_to_le_bytes(self.store@.len() as u64));
        }
        let n = self.store.len();
        let mut i: usize = 0;
        while i < n
            invariant
                i <= n,
                n == self.store@.len(),
                self.wf(),
                header == seq![self.tag] + spec_i64_le(self.focus.0.x) + spec_i64_le(
                    self.focus.0.y,
                ) + spec_u64_to_le_bytes(self.store@.len() as u64),
                out@ == header + spec_encode_entries(self.model().chunks.take(i as int)),
            decreases n - i,
        {
            let ghost pre = out@;
            let mut px = i64_le(self.store[i].0.0.x);
            out.append(&mut px);
            let mut py = i64_le(self.store[i].0.0.y);
            out.append(&mut py);
            proof {
                assert(self.store@[i as int].1.wf());
            }
            encode_tiles_into(&self.store[i].1, &mut out);
            proof {
                let entries = self.model().chunks;
                assert(entries.take(i as int + 1).drop_last() =~= entries.take(i as int));
                assert(entries.take(i as int + 1).last() == entries[i as int]);
                assert(out@ =~= pre + spec_encode_entry(entries[i as int]));
                assert(out@ =~= header + spec_encode_entries(entries.take(i as int + 1)));
            }
            i = i + 1;
        }
        proof {
            assert(self.model().chunks.take(n as int) =~= self.model().chunks);
            assert(out@ =~= spec_encode_model(self.model()));
        }
        out
    }
}

} // verus!
