use vstd::prelude::*;

verus! {

/// Blade geometry shape.
#[derive(Clone, Copy, Debug, Default, PartialEq, Eq, Structural)]
pub enum BladeShape {
    /// Tapered multi-segment ribbon (two vertices per segment row).
    #[default]
    Strip,
    /// Two perpendicular strips forming an X seen from above.
    CrossBillboard,
    /// Single quad made of two triangles.
    FlatCard,
    /// Single triangle tapering to a point.
    SingleTriangle,
}

/// Vertices one blade contributes to a chunk mesh.
pub open spec fn blade_vertex_count(shape: BladeShape, segments: nat) -> nat {
    match shape {
        BladeShape::Strip => 2 * (segments + 1),
        BladeShape::CrossBillboard => 4 * (segments + 1),
        BladeShape::FlatCard => 4,
        BladeShape::SingleTriangle => 3,
    }
}

/// Indices one blade contributes to a chunk mesh.
pub open spec fn blade_index_count(shape: BladeShape, segments: nat) -> nat {
    match shape {
        BladeShape::Strip => 6 * segments,
        BladeShape::CrossBillboard => 12 * segments,
        BladeShape::FlatCard => 6,
        BladeShape::SingleTriangle => 3,
    }
}

/// The two triangles of a quad whose lower row starts at vertex `row`:
/// `(row, row+1, row+2)` and `(row+1, row+3, row+2)`.
pub open spec fn quad_indices(row: int) -> Seq<u32> {
    seq![row as u32, (row + 1) as u32, (row + 2) as u32, (row + 1) as u32, (row + 3) as u32, (row + 2) as u32]
}

/// Index list of a strip with `segments` quads whose first vertex is `base`.
pub open spec fn strip_indices(base: int, segments: nat) -> Seq<u32>
    decreases segments,
{
    if segments == 0 {
        Seq::empty()
    } else {
        strip_indices(base, (segments - 1) as nat) + quad_indices(base + 2 * (segments - 1))
    }
}

/// Index list of one blade whose first vertex is `base`.
pub open spec fn blade_indices(shape: BladeShape, segments: nat, base: int) -> Seq<u32> {
    match shape {
        BladeShape::Strip => strip_indices(base, segments),
        BladeShape::CrossBillboard => strip_indices(base, segments) + strip_indices(
            base + 2 * (segments + 1),
            segments,
        ),
        BladeShape::FlatCard => quad_indices(base),
        BladeShape::SingleTriangle => seq![base as u32, (base + 1) as u32, (base + 2) as u32],
    }
}

/// Index buffer of a chunk of `blades` blades laid out one after another.
pub open spec fn chunk_indices(shape: BladeShape, segments: nat, blades: nat) -> Seq<u32>
    decreases blades,
{
    if blades == 0 {
        Seq::empty()
    } else {
        chunk_indices(shape, segments, (blades - 1) as nat) + blade_indices(
            shape,
            segments,
            ((blades - 1) * blade_vertex_count(shape, segments)) as int,
        )
    }
}

/// Every index is below `bound`, and the list splits into whole triangles
/// each naming three different vertices.
pub open spec fn valid_triangle_list(s: Seq<u32>, bound: int) -> bool {
    &&& s.len() % 3 == 0
    &&& forall|k: int| 0 <= k < s.len() ==> #[trigger] s[k] < bound
    &&& forall|t: int|
        0 <= t < s.len() / 3 ==> {
            &&& #[trigger] s[3 * t] != s[3 * t + 1]
            &&& s[3 * t + 1] != s[3 * t + 2]
            &&& s[3 * t] != s[3 * t + 2]
        }
}

/// Every index lies in `lo..hi` (as an integer).
pub open spec fn indices_within(s: Seq<u32>, lo: int, hi: int) -> bool {
    forall|k: int| 0 <= k < s.len() ==> lo <= #[trigger] s[k] < hi
}

proof fn lemma_triangle_list_concat(a: Seq<u32>, b: Seq<u32>, bound: int)
    requires
        valid_triangle_list(a, bound),
        valid_triangle_list(b, bound),
    ensures
        valid_triangle_list(a + b, bound),
{
    let s = a + b;
    assert((s.len()) % 3 == 0);
    assert forall|k: int| 0 <= k < s.len() implies #[trigger] s[k] < bound by {
        if k < a.len() {
            assert(s[k] == a[k]);
        } else {
            assert(s[k] == b[k - a.len()]);
        }
    }
    assert forall|t: int| 0 <= t < s.len() / 3 implies {
        &&& #[trigger] s[3 * t] != s[3 * t + 1]
        &&& s[3 * t + 1] != s[3 * t + 2]
        &&& s[3 * t] != s[3 * t + 2]
    } by {
        let na = a.len() / 3;
        assert(a.len() == 3 * na);
        if t < na {
            assert(s[3 * t] == a[3 * t]);
            assert(s[3 * t + 1] == a[3 * t + 1]);
            assert(s[3 * t + 2] == a[3 * t + 2]);
        } else {
            let u = t - na;
            assert(0 <= u < b.len() / 3);
            assert(s[3 * t] == b[3 * u]);
            assert(s[3 * t + 1] == b[3 * u + 1]);
            assert(s[3 * t + 2] == b[3 * u + 2]);
        }
    }
}

proof fn lemma_quad_valid(row: int)
    requires
        0 <= row,
        row + 3 <= u32::MAX,
    ensures
        quad_indices(row).len() == 6,
        valid_triangle_list(quad_indices(row), row + 4),
        indices_within(quad_indices(row), row, row + 4),
{
    let q = quad_indices(row);
    assert forall|t: int| 0 <= t < q.len() / 3 implies {
        &&& #[trigger] q[3 * t] != q[3 * t + 1]
        &&& q[3 * t + 1] != q[3 * t + 2]
        &&& q[3 * t] != q[3 * t + 2]
    } by {
        assert(t == 0 || t == 1);
    }
}

proof fn lemma_strip_valid(base: int, segments: nat)
    requires
        0 <= base,
        base + 2 * (segments + 1) <= u32::MAX + 1,
    ensures
        strip_indices(base, segments).len() == 6 * segments,
        valid_triangle_list(strip_indices(base, segments), base + 2 * (segments + 1)),
        indices_within(strip_indices(base, segments), base, base + 2 * (segments + 1)),
    decreases segments,
{
    if segments > 0 {
        let prev = strip_indices(base, (segments - 1) as nat);
        lemma_strip_valid(base, (segments - 1) as nat);
        let row = base + 2 * (segments - 1);
        lemma_quad_valid(row);
        let hi = base + 2 * (segments + 1);
        assert(valid_triangle_list(prev, hi));
        assert(valid_triangle_list(quad_indices(row), hi));
        lemma_triangle_list_concat(prev, quad_indices(row), hi);
        let s = strip_indices(base, segments);
        assert(s == prev + quad_indices(row));
        assert forall|k: int| 0 <= k < s.len() implies base <= #[trigger] s[k] < hi by {
            if k < prev.len() {
                assert(s[k] == prev[k]);
            } else {
                assert(s[k] == quad_indices(row)[k - prev.len()]);
            }
        }
    }
}

/// A blade's indices name only its own vertices and form proper triangles.
pub proof fn lemma_blade_indices_valid(shape: BladeShape, segments: nat, base: int)
    requires
        0 <= base,
        segments >= 1,
        base + blade_vertex_count(shape, segments) <= u32::MAX + 1,
    ensures
        blade_indices(shape, segments, base).len() == blade_index_count(shape, segments),
        valid_triangle_list(
            blade_indices(shape, segments, base),
            base + blade_vertex_count(shape, segments),
        ),
        indices_within(
            blade_indices(shape, segments, base),
            base,
            base + blade_vertex_count(shape, segments),
        ),
{
    let hi = base + blade_vertex_count(shape, segments);
    match shape {
        BladeShape::Strip => {
            lemma_strip_valid(base, segments);
        },
        BladeShape::CrossBillboard => {
            let second = base + 2 * (segments + 1);
            lemma_strip_valid(base, segments);
            lemma_strip_valid(second, segments);
            let a = strip_indices(base, segments);
            let b = strip_indices(second, segments);
            assert forall|k: int| 0 <= k < a.len() implies #[trigger] a[k] < hi by {}
            lemma_triangle_list_concat(a, b, hi);
            let s = a + b;
            assert forall|k: int| 0 <= k < s.len() implies base <= #[trigger] s[k] < hi by {
                if k < a.len() {
                    assert(s[k] == a[k]);
                } else {
                    assert(s[k] == b[k - a.len()]);
                }
            }
        },
        BladeShape::FlatCard => {
            lemma_quad_valid(base);
        },
        BladeShape::SingleTriangle => {
            let s = blade_indices(shape, segments, base);
            assert forall|t: int| 0 <= t < s.len() / 3 implies {
                &&& #[trigger] s[3 * t] != s[3 * t + 1]
                &&& s[3 * t + 1] != s[3 * t + 2]
                &&& s[3 * t] != s[3 * t + 2]
            } by {
                assert(t == 0);
            }
        },
    }
}

/// A chunk's index buffer holds `blades` × (indices per blade) entries, names only
/// the chunk's `blades` × (vertices per blade) vertices, and every triangle in it
/// has three distinct corners.
pub proof fn lemma_chunk_indices_valid(shape: BladeShape, segments: nat, blades: nat)
    requires
        segments >= 1,
        blades * blade_vertex_count(shape, segments) <= u32::MAX + 1,
    ensures
        chunk_indices(shape, segments, blades).len() == blades * blade_index_count(shape, segments),
        valid_triangle_list(
            chunk_indices(shape, segments, blades),
            (blades * blade_vertex_count(shape, segments)) as int,
        ),
    decreases blades,
{
    let v = blade_vertex_count(shape, segments);
    let bound = (blades * v) as int;
    if blades > 0 {
        let n = (blades - 1) as nat;
        assert(n * v <= blades * v) by (nonlinear_arith)
            requires
                n + 1 == blades,
                v >= 0,
        ;
        assert(blades * v == n * v + v) by (nonlinear_arith)
            requires
                n + 1 == blades,
        ;
        assert(blades * blade_index_count(shape, segments) == n * blade_index_count(shape, segments)
            + blade_index_count(shape, segments)) by (nonlinear_arith)
            requires
                n + 1 == blades,
        ;
        lemma_chunk_indices_valid(shape, segments, n);
        lemma_blade_indices_valid(shape, segments, (n * v) as int);
        let prev = chunk_indices(shape, segments, n);
        let last = blade_indices(shape, segments, (n * v) as int);
        assert forall|k: int| 0 <= k < prev.len() implies #[trigger] prev[k] < bound by {}
        assert(valid_triangle_list(prev, bound));
        lemma_triangle_list_concat(prev, last, bound);
    }
}


fn append_quad(indices: &mut Vec<u32>, row: u32)
    requires
        row + 3 <= u32::MAX,
    ensures
        final(indices)@ == old(indices)@ + quad_indices(row as int),
{
    indices.push(row);
    indices.push(row + 1);
    indices.push(row + 2);
    indices.push(row + 1);
    indices.push(row + 3);
    indices.push(row + 2);
    proof {
        assert(final(indices)@ =~= old(indices)@ + quad_indices(row as int));
    }
}

/// Appends the index list of a strip blade whose first vertex is `base`.
pub fn append_strip_indices(indices: &mut Vec<u32>, base: u32, segments: u8)
    requires
        base + 2 * (segments + 1) <= u32::MAX + 1,
    ensures
        final(indices)@ == old(indices)@ + strip_indices(base as int, segments as nat),
{
    let mut step: u32 = 0;
    while step < segments as u32
        invariant
            base + 2 * (segments + 1) <= u32::MAX + 1,
            step <= segments,
            indices@ == old(indices)@ + strip_indices(base as int, step as nat),
        decreases segments - step,
    {
        let row = base + step * 2;
        append_quad(indices, row);
        proof {
            assert(strip_indices(base as int, (step + 1) as nat) == strip_indices(
                base as int,
                step as nat,
            ) + quad_indices(row as int));
            assert(indices@ =~= old(indices)@ + strip_indices(base as int, (step + 1) as nat));
        }
        step = step + 1;
    }
}

/// Vertices one blade of `shape` contributes.
pub fn blade_vertex_count_of(shape: BladeShape, segments: u8) -> (n: u32)
    ensures
        n == blade_vertex_count(shape, segments as nat),
{
    match shape {
        BladeShape::Strip => 2 * (segments as u32 + 1),
        BladeShape::CrossBillboard => 4 * (segments as u32 + 1),
        BladeShape::FlatCard => 4,
        BladeShape::SingleTriangle => 3,
    }
}

/// Appends the index list of one blade whose first vertex is `base`.
pub fn append_blade_indices(indices: &mut Vec<u32>, shape: BladeShape, segments: u8, base: u32)
    requires
        base + blade_vertex_count(shape, segments as nat) <= u32::MAX + 1,
    ensures
        final(indices)@ == old(indices)@ + blade_indices(shape, segments as nat, base as int),
{
    match shape {
        BladeShape::Strip => {
            append_strip_indices(indices, base, segments);
        },
        BladeShape::CrossBillboard => {
            let ghost start = indices@;
            append_strip_indices(indices, base, segments);
            let second = base + 2 * (segments as u32 + 1);
            append_strip_indices(indices, second, segments);
            proof {
                assert(indices@ =~= start + blade_indices(shape, segments as nat, base as int));
            }
        },
        BladeShape::FlatCard => {
            append_quad(indices, base);
        },
        BladeShape::SingleTriangle => {
            indices.push(base);
            indices.push(base + 1);
            indices.push(base + 2);
            proof {
                assert(final(indices)@ =~= old(indices)@ + blade_indices(shape, segments as nat, base as int));
            }
        },
    }
}

/// Vertex count and index buffer of a chunk mesh.
pub struct ChunkIndexBuffer {
    pub vertex_count: u32,
    pub indices: Vec<u32>,
}

/// The index buffer of a chunk of `blade_count` blades of one shape, blade `b`
/// owning vertices `b * v .. (b + 1) * v` where `v` is the per-blade vertex
/// count. No mesh is built without blades or without at least one segment.
pub fn build_chunk_indices(shape: BladeShape, segments: u8, blade_count: usize) -> (res: Option<
    ChunkIndexBuffer,
>)
    requires
        blade_count * blade_vertex_count(shape, segments as nat) <= u32::MAX,
    ensures
        res is None <==> (blade_count == 0 || segments < 1),
        res matches Some(buffer) ==> {
            &&& buffer.vertex_count == blade_count * blade_vertex_count(shape, segments as nat)
            &&& buffer.indices@ == chunk_indices(shape, segments as nat, blade_count as nat)
            &&& valid_triangle_list(buffer.indices@, buffer.vertex_count as int)
        },
{
    if blade_count == 0 || segments < 1 {
        return None;
    }
    let per_blade = blade_vertex_count_of(shape, segments);
    let mut indices: Vec<u32> = Vec::new();
    let mut base: u32 = 0;
    let mut blade: usize = 0;
    while blade < blade_count
        invariant
            blade_count * per_blade <= u32::MAX,
            per_blade == blade_vertex_count(shape, segments as nat),
            blade <= blade_count,
            base == blade * per_blade,
            indices@ == chunk_indices(shape, segments as nat, blade as nat),
        decreases blade_count - blade,
    {
        proof {
            assert((blade + 1) * per_blade <= blade_count * per_blade) by (nonlinear_arith)
                requires
                    blade < blade_count,
            ;
            assert((blade + 1) * per_blade == blade * per_blade + per_blade) by (nonlinear_arith);
        }
        append_blade_indices(&mut indices, shape, segments, base);
        base = base + per_blade;
        blade = blade + 1;
    }
    proof {
        lemma_chunk_indices_valid(shape, segments as nat, blade_count as nat);
    }
    Some(ChunkIndexBuffer { vertex_count: base, indices })
}

} // verus!
