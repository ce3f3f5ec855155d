use vstd::prelude::*;
use std::collections::HashMap;

verus! {

broadcast use vstd::std_specs::hash::group_hash_axioms;

/// Integer coordinate of a chunk in a patch's chunk grid.
#[derive(Clone, Copy, Debug, PartialEq, Eq, Structural)]
pub struct ChunkCoord {
    pub x: i32,
    pub y: i32,
}

/// The integer shape of a chunk layout: how many chunks it has along X and Z.
#[derive(Clone, Copy, Debug, PartialEq, Eq, Structural)]
pub struct ChunkLayout {
    pub dims_x: u32,
    pub dims_y: u32,
}

/// Number of chunk columns as seen through the signed coordinate space (`dims_x as i32`).
pub open spec fn signed_width(layout: ChunkLayout) -> int {
    (layout.dims_x as i32) as int
}

/// Number of chunk rows as seen through the signed coordinate space (`dims_y as i32`).
pub open spec fn signed_height(layout: ChunkLayout) -> int {
    (layout.dims_y as i32) as int
}

/// Whether a coordinate names a chunk of the layout.
pub open spec fn layout_contains(layout: ChunkLayout, c: ChunkCoord) -> bool {
    &&& c.x >= 0
    &&& c.y >= 0
    &&& c.x < signed_width(layout)
    &&& c.y < signed_height(layout)
}

/// Whether `c` lies in the inclusive coordinate rectangle `min..=max`.
pub open spec fn rect_covers(min: ChunkCoord, max: ChunkCoord, c: ChunkCoord) -> bool {
    &&& min.x <= c.x <= max.x
    &&& min.y <= c.y <= max.y
}

/// The chunk coordinates of a layout in row-major order (rows along Z, columns along X).
pub open spec fn layout_coords_spec(layout: ChunkLayout) -> Seq<ChunkCoord> {
    let w = signed_width(layout);
    let h = signed_height(layout);
    if w <= 0 || h <= 0 {
        Seq::empty()
    } else {
        Seq::new((w * h) as nat, |k: int| ChunkCoord { x: (k % w) as i32, y: (k / w) as i32 })
    }
}

proof fn lemma_row_major_index(x: int, y: int, w: int, h: int)
    requires
        0 <= x < w,
        0 <= y < h,
    ensures
        0 <= y * w + x < w * h,
        (y * w + x) % w == x,
        (y * w + x) / w == y,
{
    assert(0 <= y * w + x < w * h) by (nonlinear_arith)
        requires
            0 <= x < w,
            0 <= y < h,
    ;
    vstd::arithmetic::div_mod::lemma_fundamental_div_mod_converse(y * w + x, w, y, x);
}

impl ChunkLayout {
    /// Whether `coord` names one of the layout's chunks.
    pub fn contains_coord(&self, coord: ChunkCoord) -> (res: bool)
        ensures
            res == layout_contains(*self, coord),
    {
        coord.x >= 0 && coord.y >= 0 && coord.x < self.dims_x as i32 && coord.y
            < self.dims_y as i32
    }

    /// All chunk coordinates, row by row.
    pub fn coords(&self) -> (res: Vec<ChunkCoord>)
        requires
            signed_width(*self) * signed_height(*self) <= usize::MAX,
        ensures
            res@ == layout_coords_spec(*self),
    {
        let w = self.dims_x as i32;
        let h = self.dims_y as i32;
        let mut res: Vec<ChunkCoord> = Vec::new();
        if w <= 0 || h <= 0 {
            return res;
        }
        let ghost target = layout_coords_spec(*self);
        let mut y: i32 = 0;
        while y < h
            invariant
                w == signed_width(*self),
                h == signed_height(*self),
                0 < w,
                0 < h,
                0 <= y <= h,
                target == layout_coords_spec(*self),
                target.len() == w * h,
                res@.len() == y * w,
                y * w <= w * h,
                forall|k: int| 0 <= k < res@.len() ==> res@[k] == target[k],
            decreases h - y,
        {
            let mut x: i32 = 0;
            while x < w
                invariant
                    w == signed_width(*self),
                    h == signed_height(*self),
                    0 < w,
                    0 <= y < h,
                    0 <= x <= w,
                    target == layout_coords_spec(*self),
                    target.len() == w * h,
                    res@.len() == y * w + x,
                    y * w + x <= w * h,
                    forall|k: int| 0 <= k < res@.len() ==> res@[k] == target[k],
                decreases w - x,
            {
                proof {
                    lemma_row_major_index(x as int, y as int, w as int, h as int);
                }
                res.push(ChunkCoord { x, y });
                x = x + 1;
                proof {
                    assert(y * w + x <= w * h) by (nonlinear_arith)
                        requires
                            0 <= y < h,
                            0 <= x <= w,
                    ;
                }
            }
            proof {
                assert((y + 1) * w == y * w + w) by (nonlinear_arith);
                assert((y + 1) * w <= w * h) by (nonlinear_arith)
                    requires
                        0 <= y < h,
                        0 < w,
                ;
            }
            y = y + 1;
        }
        proof {
            assert(h * w == w * h) by (nonlinear_arith);
            assert(res@ =~= target);
        }
        res
    }
}


/// Hash-map key of a chunk that lies inside a layout (both coordinates non-negative).
pub open spec fn cell_key(c: ChunkCoord) -> u64 {
    (c.x as int * 0x1_0000_0000 + c.y as int) as u64
}

proof fn lemma_cell_key_injective(a: ChunkCoord, b: ChunkCoord)
    requires
        a.x >= 0,
        a.y >= 0,
        b.x >= 0,
        b.y >= 0,
        cell_key(a) == cell_key(b),
    ensures
        a == b,
{
}

/// A sequence of triangle indices that is strictly increasing and below `count`.
pub open spec fn sorted_below(s: Seq<usize>, count: nat) -> bool {
    &&& forall|i: int| 0 <= i < s.len() ==> s[i] < count
    &&& forall|i: int, j: int| 0 <= i < j < s.len() ==> s[i] < s[j]
}

/// The integer bookkeeping of a baked mesh surface: which accepted triangles
/// touch which chunk of the layout.
pub struct SurfaceBake {
    layout: ChunkLayout,
    triangle_count: usize,
    chunk_triangles: HashMap<u64, Vec<usize>>,
}

impl SurfaceBake {
    /// The chunk layout the bake partitions.
    pub closed spec fn spec_layout(self) -> ChunkLayout {
        self.layout
    }

    /// The chunk layout the bake partitions.
    pub fn layout(&self) -> (layout: ChunkLayout)
        ensures
            layout == self.spec_layout(),
    {
        self.layout
    }

    /// Number of triangles accepted so far; they are numbered `0..triangle_count`.
    pub closed spec fn spec_triangle_count(self) -> nat {
        self.triangle_count as nat
    }

    /// The triangles listed for chunk `c` (empty for chunks outside the layout).
    pub closed spec fn cell(self, c: ChunkCoord) -> Seq<usize> {
        if layout_contains(self.layout, c) && self.chunk_triangles@.contains_key(cell_key(c)) {
            self.chunk_triangles@[cell_key(c)]@
        } else {
            Seq::empty()
        }
    }

    /// Every chunk lists its triangles in increasing order, each a valid triangle index.
    pub closed spec fn wf(self) -> bool {
        forall|c: ChunkCoord| #[trigger] sorted_below(self.cell(c), self.triangle_count as nat)
    }

    /// An empty bake for a layout.
    pub fn new(layout: ChunkLayout) -> (bake: Self)
        ensures
            bake.wf(),
            bake.spec_layout() == layout,
            bake.spec_triangle_count() == 0,
            forall|c: ChunkCoord| #[trigger] bake.cell(c) == Seq::<usize>::empty(),
    {
        SurfaceBake { layout, triangle_count: 0, chunk_triangles: HashMap::new() }
    }

    /// Number of triangles accepted so far.
    pub fn triangle_count(&self) -> (n: usize)
        ensures
            n == self.spec_triangle_count(),
    {
        self.triangle_count
    }

    /// The triangles that touch chunk `coord`; empty when none do.
    pub fn triangle_indices(&self, coord: ChunkCoord) -> (res: &[usize])
        ensures
            res@ == self.cell(coord),
            !layout_contains(self.spec_layout(), coord) ==> res@.len() == 0,
            self.wf() ==> sorted_below(res@, self.spec_triangle_count()),
    {
        if !self.layout.contains_coord(coord) {
            return &[];
        }
        let key = (coord.x as u64) * 0x1_0000_0000u64 + (coord.y as u64);
        let res: &[usize] = match self.chunk_triangles.get(&key) {
            Some(list) => list.as_slice(),
            None => &[],
        };
        proof {
            if self.wf() {
                assert(sorted_below(self.cell(coord), self.triangle_count as nat));
                assert(res@ == self.cell(coord));
            }
        }
        res
    }

    /// The invariant of a bake, spelled out for one chunk: its triangle list is
    /// strictly increasing, every entry is a triangle accepted so far, and a
    /// coordinate outside the layout lists nothing.
    pub proof fn lemma_cell_invariant(self, c: ChunkCoord)
        requires
            self.wf(),
        ensures
            sorted_below(self.cell(c), self.spec_triangle_count()),
            forall|i: int, j: int|
                0 <= i < j < self.cell(c).len() ==> self.cell(c)[i] < self.cell(c)[j],
            forall|i: int| 0 <= i < self.cell(c).len() ==> self.cell(c)[i] < self.spec_triangle_count(),
            !layout_contains(self.spec_layout(), c) ==> self.cell(c) == Seq::<usize>::empty(),
    {
        assert(sorted_below(self.cell(c), self.triangle_count as nat));
    }

    /// Records the next accepted triangle, whose XZ bounds fall in chunks
    /// `min_coord..=max_coord`, in every chunk of that range inside the layout.
    /// Returns the index given to the triangle.
    pub fn push_triangle(&mut self, min_coord: ChunkCoord, max_coord: ChunkCoord) -> (index: usize)
        requires
            old(self).wf(),
            old(self).spec_triangle_count() < usize::MAX,
        ensures
            final(self).wf(),
            index == old(self).spec_triangle_count(),
            final(self).spec_triangle_count() == old(self).spec_triangle_count() + 1,
            final(self).spec_layout() == old(self).spec_layout(),
            forall|c: ChunkCoord|
                #[trigger] final(self).cell(c) == if layout_contains(old(self).spec_layout(), c)
                    && rect_covers(min_coord, max_coord, c) {
                    old(self).cell(c).push(index)
                } else {
                    old(self).cell(c)
                },
    {
        let index = self.triangle_count;
        let ghost old_bake = *self;
        self.triangle_count = index + 1;
        proof {
            assert forall|c: ChunkCoord| #[trigger]
                sorted_below(self.cell(c), self.triangle_count as nat) by {
                assert(self.cell(c) == old_bake.cell(c));
                assert(sorted_below(old_bake.cell(c), old_bake.triangle_count as nat));
            }
        }
        let w = self.layout.dims_x as i32;
        let h = self.layout.dims_y as i32;
        if w <= 0 || h <= 0 || max_coord.x < 0 || max_coord.y < 0 || min_coord.x >= w
            || min_coord.y >= h {
            return index;
        }
        let lo_x = if min_coord.x < 0 { 0 } else { min_coord.x };
        let hi_x = if max_coord.x < w { max_coord.x } else { w - 1 };
        let lo_y = if min_coord.y < 0 { 0 } else { min_coord.y };
        let hi_y = if max_coord.y < h { max_coord.y } else { h - 1 };
        if lo_x > hi_x || lo_y > hi_y {
            return index;
        }
        let mut y = lo_y;
        while y <= hi_y
            invariant
                self.layout == old_bake.layout,
                old_bake.wf(),
                self.triangle_count == index + 1,
                index == old_bake.triangle_count,
                w == signed_width(self.layout),
                h == signed_height(self.layout),
                0 <= lo_x,
                0 <= lo_y <= y,
                lo_x <= hi_x,
                hi_x < w,
                hi_y < h,
                y <= hi_y + 1,
                lo_x == (if min_coord.x < 0 { 0 } else { min_coord.x }),
                hi_x == (if max_coord.x < w { max_coord.x as int } else { w - 1 }),
                lo_y == (if min_coord.y < 0 { 0 } else { min_coord.y }),
                hi_y == (if max_coord.y < h { max_coord.y as int } else { h - 1 }),
                forall|c: ChunkCoord| #[trigger]
                    sorted_below(self.cell(c), self.triangle_count as nat),
                forall|c: ChunkCoord|
                    #[trigger] self.cell(c) == if layout_contains(old_bake.layout, c)
                        && rect_covers(min_coord, max_coord, c) && c.y < y {
                        old_bake.cell(c).push(index)
                    } else {
                        old_bake.cell(c)
                    },
            decreases hi_y + 1 - y,
        {
            let mut x = lo_x;
            while x <= hi_x
                invariant
                    self.layout == old_bake.layout,
                    old_bake.wf(),
                    self.triangle_count == index + 1,
                    index == old_bake.triangle_count,
                    w == signed_width(self.layout),
                    h == signed_height(self.layout),
                    0 <= lo_x <= x,
                    0 <= lo_y <= y <= hi_y,
                    hi_x < w,
                    hi_y < h,
                    x <= hi_x + 1,
                    lo_x == (if min_coord.x < 0 { 0 } else { min_coord.x }),
                    hi_x == (if max_coord.x < w { max_coord.x as int } else { w - 1 }),
                    lo_y == (if min_coord.y < 0 { 0 } else { min_coord.y }),
                    hi_y == (if max_coord.y < h { max_coord.y as int } else { h - 1 }),
                    forall|c: ChunkCoord| #[trigger]
                        sorted_below(self.cell(c), self.triangle_count as nat),
                    forall|c: ChunkCoord|
                        #[trigger] self.cell(c) == if layout_contains(old_bake.layout, c)
                            && rect_covers(min_coord, max_coord, c) && (c.y < y || (c.y == y
                            && c.x < x)) {
                            old_bake.cell(c).push(index)
                        } else {
                            old_bake.cell(c)
                        },
                decreases hi_x + 1 - x,
            {
                let cur = ChunkCoord { x, y };
                let key = (x as u64) * 0x1_0000_0000u64 + (y as u64);
                let ghost before = *self;
                let mut list = match self.chunk_triangles.remove(&key) {
                    Some(list) => list,
                    None => Vec::new(),
                };
                proof {
                    assert(cell_key(cur) == key);
                    assert(list@ == before.cell(cur));
                }
                list.push(index);
                self.chunk_triangles.insert(key, list);
                proof {
                    assert forall|c: ChunkCoord| c != cur implies #[trigger] self.cell(c)
                        == before.cell(c) by {
                        if layout_contains(self.layout, c) {
                            if cell_key(c) == key {
                                lemma_cell_key_injective(c, cur);
                            }
                        }
                    }
                    assert(self.cell(cur) == before.cell(cur).push(index));
                    assert forall|c: ChunkCoord| #[trigger]
                        sorted_below(self.cell(c), self.triangle_count as nat) by {
                        if c == cur {
                            assert(sorted_below(before.cell(cur), self.triangle_count as nat));
                            assert(sorted_below(old_bake.cell(cur), old_bake.triangle_count as nat));
                        }
                    }
                }
                x = x + 1;
            }
            y = y + 1;
        }
        index
    }
}


/// The vertex triples of a triangle list: consecutive groups of three indices;
/// a trailing incomplete group is ignored.
pub open spec fn corners_spec(indices: Seq<u32>) -> Seq<(usize, usize, usize)> {
    Seq::new(
        (indices.len() / 3) as nat,
        |t: int| (indices[3 * t] as usize, indices[3 * t + 1] as usize, indices[3 * t + 2] as usize),
    )
}

/// Splits a triangle-list index buffer into vertex triples.
pub fn triangle_corners(indices: &[u32]) -> (tris: Vec<(usize, usize, usize)>)
    ensures
        tris@ == corners_spec(indices@),
{
    let len = indices.len();
    let n = len / 3;
    let mut tris: Vec<(usize, usize, usize)> = Vec::new();
    let mut t: usize = 0;
    while t < n
        invariant
            n == len / 3,
            len == indices@.len(),
            t <= n,
            tris@.len() == t,
            forall|k: int| 0 <= k < t ==> #[trigger] tris@[k] == corners_spec(indices@)[k],
        decreases n - t,
    {
        proof {
            vstd::arithmetic::div_mod::lemma_fundamental_div_mod(len as int, 3);
            assert(t * 3 + 2 < len);
        }
        let i = t * 3;
        tris.push((indices[i] as usize, indices[i + 1] as usize, indices[i + 2] as usize));
        t = t + 1;
    }
    proof {
        assert(tris@ =~= corners_spec(indices@));
    }
    tris
}

/// Index buffer of a mesh drawn without one: `0, 1, 2, …` up to the vertex
/// count taken as a `u32`.
pub fn sequential_indices(vertex_count: usize) -> (indices: Vec<u32>)
    ensures
        indices@.len() == vertex_count as u32,
        forall|i: int| 0 <= i < indices@.len() ==> #[trigger] indices@[i] == i,
{
    let n = vertex_count as u32;
    let mut indices: Vec<u32> = Vec::new();
    let mut i: u32 = 0;
    while i < n
        invariant
            i <= n,
            n == vertex_count as u32,
            indices@.len() == i,
            forall|k: int| 0 <= k < i ==> #[trigger] indices@[k] == k,
        decreases n - i,
    {
        indices.push(i);
        i = i + 1;
    }
    indices
}

} // verus!
