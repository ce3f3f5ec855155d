use vstd::prelude::*;
use crate::surface::ChunkCoord;

verus! {

/// Seed of the blade stream of one chunk, LOD band and archetype: the patch
/// seed xor the chunk X coordinate in the high half, the chunk Y coordinate,
/// the LOD index and the archetype index (coordinates sign-extended to 64 bits).
pub open spec fn chunk_seed_spec(seed: u64, coord: ChunkCoord, lod_index: usize, archetype_index: usize) -> u64 {
    seed ^ (((coord.x as i64) as u64) << 32u64) ^ ((coord.y as i64) as u64) ^ (lod_index as u64) ^ (
    archetype_index as u64)
}

/// Seed of the blade stream of one chunk, LOD band and archetype.
pub fn chunk_seed(seed: u64, coord: ChunkCoord, lod_index: usize, archetype_index: usize) -> (s: u64)
    ensures
        s == chunk_seed_spec(seed, coord, lod_index, archetype_index),
{
    seed ^ ((coord.x as i64 as u64) << 32u64) ^ (coord.y as i64 as u64) ^ (lod_index as u64) ^ (
    archetype_index as u64)
}

/// Changing only the archetype index changes the chunk seed by exactly the xor
/// of the two indices, so two archetypes of the same chunk and LOD band always
/// get different blade streams.
pub proof fn lemma_chunk_seed_separates_archetypes(
    seed: u64,
    coord: ChunkCoord,
    lod_index: usize,
    a: usize,
    b: usize,
)
    ensures
        chunk_seed_spec(seed, coord, lod_index, a) ^ chunk_seed_spec(seed, coord, lod_index, b) == (a
            as u64) ^ (b as u64),
        a != b ==> chunk_seed_spec(seed, coord, lod_index, a) != chunk_seed_spec(seed, coord, lod_index, b),
{
    let k: u64 = seed ^ (((coord.x as i64) as u64) << 32u64) ^ ((coord.y as i64) as u64);
    let l: u64 = lod_index as u64;
    let x: u64 = a as u64;
    let y: u64 = b as u64;
    assert(((k ^ l) ^ x) ^ ((k ^ l) ^ y) == x ^ y) by (bit_vector);
    assert(x != y ==> ((k ^ l) ^ x) != ((k ^ l) ^ y)) by (bit_vector);
}

/// Two different chunks in the same row, or in the same column, get different
/// seeds for the same patch seed, LOD band and archetype.
pub proof fn lemma_chunk_seed_separates_chunks(
    seed: u64,
    c1: ChunkCoord,
    c2: ChunkCoord,
    lod_index: usize,
    archetype_index: usize,
)
    requires
        c1 != c2,
        c1.x == c2.x || c1.y == c2.y,
    ensures
        chunk_seed_spec(seed, c1, lod_index, archetype_index) != chunk_seed_spec(
            seed,
            c2,
            lod_index,
            archetype_index,
        ),
{
    let l: u64 = lod_index as u64;
    let a: u64 = archetype_index as u64;
    let x1: i32 = c1.x;
    let x2: i32 = c2.x;
    let y1: i32 = c1.y;
    let y2: i32 = c2.y;
    if c1.x == c2.x {
        assert(y1 != y2 ==> ((((seed ^ (((x1 as i64) as u64) << 32u64)) ^ ((y1 as i64) as u64)) ^ l) ^ a)
            != ((((seed ^ (((x1 as i64) as u64) << 32u64)) ^ ((y2 as i64) as u64)) ^ l) ^ a))
            by (bit_vector);
    } else {
        assert(x1 != x2 ==> ((((seed ^ (((x1 as i64) as u64) << 32u64)) ^ ((y1 as i64) as u64)) ^ l) ^ a)
            != ((((seed ^ (((x2 as i64) as u64) << 32u64)) ^ ((y1 as i64) as u64)) ^ l) ^ a))
            by (bit_vector);
    }
}

/// Changing only the LOD index changes the chunk seed by exactly the xor of the
/// two indices, so two LOD bands of the same chunk and archetype get different
/// blade streams.
pub proof fn lemma_chunk_seed_separates_lods(
    seed: u64,
    coord: ChunkCoord,
    l1: usize,
    l2: usize,
    archetype_index: usize,
)
    ensures
        chunk_seed_spec(seed, coord, l1, archetype_index) ^ chunk_seed_spec(seed, coord, l2, archetype_index)
            == (l1 as u64) ^ (l2 as u64),
        l1 != l2 ==> chunk_seed_spec(seed, coord, l1, archetype_index) != chunk_seed_spec(
            seed,
            coord,
            l2,
            archetype_index,
        ),
{
    let k: u64 = seed ^ (((coord.x as i64) as u64) << 32u64) ^ ((coord.y as i64) as u64);
    let x: u64 = l1 as u64;
    let y: u64 = l2 as u64;
    let z: u64 = archetype_index as u64;
    assert(((k ^ x) ^ z) ^ ((k ^ y) ^ z) == x ^ y) by (bit_vector);
    assert(x != y ==> ((k ^ x) ^ z) != ((k ^ y) ^ z)) by (bit_vector);
}

/// Changing only the patch seed changes the chunk seed by exactly the xor of the
/// two patch seeds; chunk (0, 0) at LOD 0 of archetype 0 uses the patch seed itself.
pub proof fn lemma_chunk_seed_follows_patch_seed(
    s1: u64,
    s2: u64,
    coord: ChunkCoord,
    lod_index: usize,
    archetype_index: usize,
)
    ensures
        chunk_seed_spec(s1, coord, lod_index, archetype_index) ^ chunk_seed_spec(
            s2,
            coord,
            lod_index,
            archetype_index,
        ) == s1 ^ s2,
        s1 != s2 ==> chunk_seed_spec(s1, coord, lod_index, archetype_index) != chunk_seed_spec(
            s2,
            coord,
            lod_index,
            archetype_index,
        ),
        chunk_seed_spec(s1, ChunkCoord { x: 0, y: 0 }, 0, 0) == s1,
{
    let x: u64 = ((coord.x as i64) as u64) << 32u64;
    let y: u64 = (coord.y as i64) as u64;
    let l: u64 = lod_index as u64;
    let a: u64 = archetype_index as u64;
    assert(((((s1 ^ x) ^ y) ^ l) ^ a) ^ ((((s2 ^ x) ^ y) ^ l) ^ a) == s1 ^ s2) by (bit_vector);
    assert(s1 != s2 ==> ((((s1 ^ x) ^ y) ^ l) ^ a) != ((((s2 ^ x) ^ y) ^ l) ^ a)) by (bit_vector);
    assert(((0i32 as i64) as u64) == 0u64);
    assert((0u64 << 32u64) == 0u64) by (bit_vector);
    assert((((s1 ^ 0u64) ^ 0u64) ^ 0u64) ^ 0u64 == s1) by (bit_vector);
}

/// Rows of the jittered grid used for planar scattering: `target` cells
/// spread over `cols` columns, rounded up, and at least one row.
pub open spec fn planar_grid_rows_spec(target: nat, cols: nat) -> nat {
    let rows = if target % cols == 0 {
        target / cols
    } else {
        target / cols + 1
    };
    if rows < 1 {
        1
    } else {
        rows
    }
}

/// Rows of the planar scatter grid for `target` blades over `cols` columns.
pub fn planar_grid_rows(target: usize, cols: usize) -> (rows: usize)
    requires
        cols >= 1,
    ensures
        rows == planar_grid_rows_spec(target as nat, cols as nat),
        rows >= 1,
        rows * cols >= target,
        target > 0 ==> (rows - 1) * cols < target,
{
    let q = target / cols;
    let r = target % cols;
    proof {
        vstd::arithmetic::div_mod::lemma_fundamental_div_mod(target as int, cols as int);
        vstd::arithmetic::div_mod::lemma_mod_pos_bound(target as int, cols as int);
        assert(q * cols + r == target) by (nonlinear_arith)
            requires
                target == cols * q + r,
        ;
        if r != 0 {
            assert(q * 2 <= q * cols) by (nonlinear_arith)
                requires
                    cols >= 2,
                    q >= 0,
            ;
        }
    }
    let rows = if r == 0 {
        q
    } else {
        q + 1
    };
    let rows = if rows < 1 {
        1
    } else {
        rows
    };
    proof {
        if r == 0 {
            if q == 0 {
                assert(q * cols == 0);
                assert(target == 0);
            } else {
                assert((rows - 1) * cols == q * cols - cols) by (nonlinear_arith)
                    requires
                        rows == q,
                ;
            }
        } else {
            assert(rows * cols == q * cols + cols) by (nonlinear_arith)
                requires
                    rows == q + 1,
            ;
            assert((rows - 1) * cols == q * cols);
        }
    }
    rows
}

/// Number of triangle picks tried when scattering on a mesh surface: four per
/// wanted blade, and at least sixteen.
pub fn mesh_sample_attempts(target: usize) -> (attempts: usize)
    requires
        target * 4 <= usize::MAX,
    ensures
        attempts == (if target * 4 > 16 { target * 4 } else { 16 }),
{
    let a = target * 4;
    if a > 16 {
        a
    } else {
        16
    }
}


/// Which texture channel drives a density map.
#[derive(Clone, Copy, Debug, Default, PartialEq, Eq, Structural)]
pub enum GrassTextureChannel {
    Red,
    Green,
    Blue,
    Alpha,
    /// Rec. 709 luminance of the RGB channels.
    #[default]
    Luminance,
}

/// Byte offset of texel `(x, y)` in a tightly packed RGBA8 image `width` texels wide.
pub open spec fn texel_offset(width: int, x: int, y: int) -> int {
    (y * width + x) * 4
}

/// The RGBA bytes of texel `(x, y)` of a density image, or `None` when the image
/// is empty or the texel lies past the end of its data (the caller then treats
/// the density as full).
pub fn density_texel(data: &[u8], width: u32, height: u32, x: usize, y: usize) -> (texel: Option<
    (u8, u8, u8, u8),
>)
    requires
        texel_offset(width as int, x as int, y as int) + 3 <= usize::MAX,
    ensures
        texel is None <==> (width == 0 || height == 0 || texel_offset(width as int, x as int, y as int)
            + 3 >= data@.len()),
        texel matches Some((r, g, b, a)) ==> {
            let o = texel_offset(width as int, x as int, y as int);
            &&& r == data@[o]
            &&& g == data@[o + 1]
            &&& b == data@[o + 2]
            &&& a == data@[o + 3]
        },
{
    if width == 0 || height == 0 {
        return None;
    }
    proof {
        assert(0 <= y * width) by (nonlinear_arith)
            requires
                y >= 0,
                width >= 0,
        ;
    }
    let pixel = (y * (width as usize) + x) * 4;
    if pixel + 3 >= data.len() {
        return None;
    }
    Some((data[pixel], data[pixel + 1], data[pixel + 2], data[pixel + 3]))
}

/// The byte of a texel that `channel` reads; `None` for luminance, which
/// weighs the three colour bytes.
pub fn channel_byte(texel: (u8, u8, u8, u8), channel: GrassTextureChannel) -> (b: Option<u8>)
    ensures
        b == match channel {
            GrassTextureChannel::Red => Some(texel.0),
            GrassTextureChannel::Green => Some(texel.1),
            GrassTextureChannel::Blue => Some(texel.2),
            GrassTextureChannel::Alpha => Some(texel.3),
            GrassTextureChannel::Luminance => None::<u8>,
        },
{
    match channel {
        GrassTextureChannel::Red => Some(texel.0),
        GrassTextureChannel::Green => Some(texel.1),
        GrassTextureChannel::Blue => Some(texel.2),
        GrassTextureChannel::Alpha => Some(texel.3),
        GrassTextureChannel::Luminance => None,
    }
}

} // verus!
