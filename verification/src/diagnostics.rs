use vstd::prelude::*;
use vstd::string::StringExecFns;

verus! {

/// The character of decimal digit `d`.
pub open spec fn digit_char(d: nat) -> char {
    ((48 + d) as u32) as char
}

/// Decimal representation of `n`, most significant digit first, no leading zeros.
pub open spec fn decimal(n: nat) -> Seq<char>
    decreases n,
{
    if n < 10 {
        seq![digit_char(n)]
    } else {
        decimal(n / 10).push(digit_char(n % 10))
    }
}

fn digit_str(d: u32) -> (s: &'static str)
    requires
        d < 10,
    ensures
        s@ == seq![digit_char(d as nat)],
{
    proof {
        reveal_strlit("0");
        reveal_strlit("1");
        reveal_strlit("2");
        reveal_strlit("3");
        reveal_strlit("4");
        reveal_strlit("5");
        reveal_strlit("6");
        reveal_strlit("7");
        reveal_strlit("8");
        reveal_strlit("9");
    }
    let s = match d {
        0 => "0",
        1 => "1",
        2 => "2",
        3 => "3",
        4 => "4",
        5 => "5",
        6 => "6",
        7 => "7",
        8 => "8",
        _ => "9",
    };
    proof {
        assert(s@ =~= seq![digit_char(d as nat)]);
    }
    s
}

/// Appends the decimal representation of `n`.
pub fn append_decimal(out: &mut String, n: u32)
    ensures
        final(out)@ == old(out)@ + decimal(n as nat),
    decreases n,
{
    if n >= 10 {
        append_decimal(out, n / 10);
    }
    let d = digit_str(n % 10);
    out.append(d);
    proof {
        if n >= 10 {
            assert(final(out)@ =~= old(out)@ + decimal(n as nat));
        } else {
            assert(final(out)@ =~= old(out)@ + decimal(n as nat));
        }
    }
}

/// Display name of a patch entity without a `Name`: `"Patch "` and the entity index.
pub fn patch_label(entity_index: u32) -> (label: String)
    ensures
        label@ == "Patch "@ + decimal(entity_index as nat),
{
    let mut label = String::from_str("Patch ");
    append_decimal(&mut label, entity_index);
    label
}


/// One generated chunk as seen by the diagnostics pass.
#[derive(Clone, Copy, Debug, PartialEq, Eq, Structural)]
pub struct ChunkRecord {
    /// Entity bits of the patch that owns the chunk.
    pub patch: u64,
    pub lod_index: usize,
    pub blade_count: u32,
    /// Whether the chunk is visible from some view this frame.
    pub visible: bool,
}

/// Which chunks a diagnostics counter looks at.
pub struct ChunkFilter {
    pub patch: Option<u64>,
    pub lod: Option<usize>,
    pub visible_only: bool,
}

/// Whether chunk `c` passes filter `f`.
pub open spec fn selects(f: ChunkFilter, c: ChunkRecord) -> bool {
    &&& (f.patch matches Some(p) ==> c.patch == p)
    &&& (f.lod matches Some(l) ==> c.lod_index == l)
    &&& (f.visible_only ==> c.visible)
}

/// Number of chunks of `s` that pass `f`.
pub open spec fn count_selected(s: Seq<ChunkRecord>, f: ChunkFilter) -> nat
    decreases s.len(),
{
    if s.len() == 0 {
        0
    } else {
        count_selected(s.drop_last(), f) + if selects(f, s.last()) {
            1nat
        } else {
            0nat
        }
    }
}

/// Total blade count of the chunks of `s` that pass `f`.
pub open spec fn blades_selected(s: Seq<ChunkRecord>, f: ChunkFilter) -> nat
    decreases s.len(),
{
    if s.len() == 0 {
        0
    } else {
        blades_selected(s.drop_last(), f) + if selects(f, s.last()) {
            s.last().blade_count as nat
        } else {
            0nat
        }
    }
}

/// Length of the per-LOD counters of a patch: three slots, grown to cover the
/// largest LOD index among the patch's chunks.
pub open spec fn lod_slots(s: Seq<ChunkRecord>, patch: u64) -> nat
    decreases s.len(),
{
    if s.len() == 0 {
        3
    } else {
        let prev = lod_slots(s.drop_last(), patch);
        if s.last().patch == patch && s.last().lod_index + 1 > prev {
            (s.last().lod_index + 1) as nat
        } else {
            prev
        }
    }
}

pub open spec fn all_chunks() -> ChunkFilter {
    ChunkFilter { patch: None, lod: None, visible_only: false }
}

pub open spec fn visible_chunks() -> ChunkFilter {
    ChunkFilter { patch: None, lod: None, visible_only: true }
}

pub open spec fn patch_chunks(patch: u64) -> ChunkFilter {
    ChunkFilter { patch: Some(patch), lod: None, visible_only: false }
}

pub open spec fn visible_patch_chunks(patch: u64) -> ChunkFilter {
    ChunkFilter { patch: Some(patch), lod: None, visible_only: true }
}

pub open spec fn lod_chunks(patch: u64, lod: int) -> ChunkFilter {
    ChunkFilter { patch: Some(patch), lod: Some(lod as usize), visible_only: false }
}

pub open spec fn visible_lod_chunks(patch: u64, lod: int) -> ChunkFilter {
    ChunkFilter { patch: Some(patch), lod: Some(lod as usize), visible_only: true }
}

/// A filtered count or blade total never exceeds the unfiltered one.
pub proof fn lemma_selected_bounded(s: Seq<ChunkRecord>, f: ChunkFilter)
    ensures
        count_selected(s, f) <= s.len(),
        blades_selected(s, f) <= blades_selected(s, all_chunks()),
    decreases s.len(),
{
    if s.len() > 0 {
        lemma_selected_bounded(s.drop_last(), f);
    }
}

proof fn lemma_take_step(s: Seq<ChunkRecord>, i: int)
    requires
        0 <= i < s.len(),
    ensures
        s.take(i + 1).drop_last() == s.take(i),
        s.take(i + 1).last() == s[i],
{
    assert(s.take(i + 1).drop_last() =~= s.take(i));
}

proof fn lemma_prefix_bounded(s: Seq<ChunkRecord>, i: int, f: ChunkFilter)
    requires
        0 <= i <= s.len(),
    ensures
        blades_selected(s.take(i), f) <= blades_selected(s, all_chunks()),
        count_selected(s.take(i), f) <= s.len(),
    decreases s.len() - i,
{
    if i == s.len() {
        assert(s.take(i) =~= s);
        lemma_selected_bounded(s, f);
    } else {
        lemma_prefix_bounded(s, i + 1, f);
        lemma_take_step(s, i);
        lemma_selected_bounded(s.take(i + 1), f);
        lemma_selected_bounded(s.take(i), f);
        assert(blades_selected(s.take(i), all_chunks()) <= blades_selected(s.take(i + 1), all_chunks()));
    }
}

/// LOD indices at or past the counter length never occur among the patch's chunks.
proof fn lemma_lod_beyond_slots_empty(s: Seq<ChunkRecord>, patch: u64, l: int)
    requires
        lod_slots(s, patch) <= l <= usize::MAX,
    ensures
        count_selected(s, lod_chunks(patch, l)) == 0,
        blades_selected(s, lod_chunks(patch, l)) == 0,
        count_selected(s, visible_lod_chunks(patch, l)) == 0,
        blades_selected(s, visible_lod_chunks(patch, l)) == 0,
    decreases s.len(),
{
    if s.len() > 0 {
        lemma_lod_beyond_slots_empty(s.drop_last(), patch, l);
    }
}

proof fn lemma_lod_slots_grow(s: Seq<ChunkRecord>, patch: u64)
    ensures
        lod_slots(s, patch) >= 3,
    decreases s.len(),
{
    if s.len() > 0 {
        lemma_lod_slots_grow(s.drop_last(), patch);
    }
}

/// Per-patch diagnostics counters.
pub struct GrassPatchDiagnostics {
    /// Entity bits of the patch.
    pub entity: u64,
    pub name: String,
    pub chunk_count: u32,
    pub blade_count: u32,
    pub visible_chunk_count: u32,
    pub visible_blade_count: u32,
    pub lod_chunk_counts: Vec<u32>,
    pub lod_blade_counts: Vec<u32>,
    pub visible_lod_chunk_counts: Vec<u32>,
    pub visible_lod_blade_counts: Vec<u32>,
    pub dirty: bool,
}

/// What the diagnostics pass knows of one patch.
pub struct PatchRecord {
    /// Entity bits of the patch.
    pub entity: u64,
    /// Index part of the entity, used in the fallback name.
    pub entity_index: u32,
    /// The patch's `Name`, if it has one.
    pub name: Option<String>,
    pub dirty: bool,
}

/// `d` holds the counters of patch `rec` over the chunks `s`.
pub open spec fn describes_patch(d: GrassPatchDiagnostics, rec: PatchRecord, s: Seq<ChunkRecord>) -> bool {
    let p = rec.entity;
    let slots = lod_slots(s, p);
    &&& d.entity == p
    &&& d.dirty == rec.dirty
    &&& d.name@ == match rec.name {
        Some(n) => n@,
        None => "Patch "@ + decimal(rec.entity_index as nat),
    }
    &&& d.chunk_count == count_selected(s, patch_chunks(p))
    &&& d.blade_count == blades_selected(s, patch_chunks(p))
    &&& d.visible_chunk_count == count_selected(s, visible_patch_chunks(p))
    &&& d.visible_blade_count == blades_selected(s, visible_patch_chunks(p))
    &&& d.lod_chunk_counts@.len() == slots
    &&& d.lod_blade_counts@.len() == slots
    &&& d.visible_lod_chunk_counts@.len() == slots
    &&& d.visible_lod_blade_counts@.len() == slots
    &&& forall|l: int|
        0 <= l < slots ==> {
            &&& #[trigger] d.lod_chunk_counts@[l] == count_selected(s, lod_chunks(p, l))
            &&& d.lod_blade_counts@[l] == blades_selected(s, lod_chunks(p, l))
            &&& d.visible_lod_chunk_counts@[l] == count_selected(s, visible_lod_chunks(p, l))
            &&& d.visible_lod_blade_counts@[l] == blades_selected(s, visible_lod_chunks(p, l))
        }
}

/// Counters of `v` after counting chunk `c` (same LOD slot layout as the filter).
spec fn lod_counters_ok(
    v: Seq<u32>,
    s: Seq<ChunkRecord>,
    p: u64,
    visible: bool,
    blades: bool,
) -> bool {
    &&& v.len() == lod_slots(s, p)
    &&& forall|l: int|
        0 <= l < v.len() ==> #[trigger] v[l] == (if blades {
            blades_selected(s, ChunkFilter { patch: Some(p), lod: Some(l as usize), visible_only: visible })
        } else {
            count_selected(s, ChunkFilter { patch: Some(p), lod: Some(l as usize), visible_only: visible })
        })
}

fn zeros(n: usize) -> (v: Vec<u32>)
    ensures
        v@.len() == n,
        forall|i: int| 0 <= i < n ==> #[trigger] v@[i] == 0,
{
    let mut v: Vec<u32> = Vec::new();
    let mut i: usize = 0;
    while i < n
        invariant
            i <= n,
            v@.len() == i,
            forall|k: int| 0 <= k < i ==> #[trigger] v@[k] == 0,
        decreases n - i,
    {
        v.push(0);
        i = i + 1;
    }
    v
}

fn grow_zeros(v: &mut Vec<u32>, len: usize)
    requires
        len >= old(v)@.len(),
    ensures
        final(v)@.len() == len,
        forall|i: int| 0 <= i < old(v)@.len() ==> #[trigger] final(v)@[i] == old(v)@[i],
        forall|i: int| old(v)@.len() <= i < len ==> #[trigger] final(v)@[i] == 0,
{
    while v.len() < len
        invariant
            len >= old(v)@.len(),
            v@.len() <= len,
            v@.len() >= old(v)@.len(),
            forall|i: int| 0 <= i < old(v)@.len() ==> #[trigger] v@[i] == old(v)@[i],
            forall|i: int| old(v)@.len() <= i < v@.len() ==> #[trigger] v@[i] == 0,
        decreases len - v@.len(),
    {
        v.push(0);
    }
}


/// How one LOD counter vector evolves when chunk `c` is counted.
spec fn lod_step(old_v: Seq<u32>, new_v: Seq<u32>, c: ChunkRecord, p: u64, visible: bool, blades: bool) -> bool {
    forall|l: int|
        0 <= l < new_v.len() ==> #[trigger] new_v[l] == (if l < old_v.len() {
            old_v[l] as int
        } else {
            0
        }) + (if c.patch == p && c.lod_index == l && (visible ==> c.visible) {
            if blades {
                c.blade_count as int
            } else {
                1
            }
        } else {
            0
        })
}

proof fn lemma_lod_counter_step(
    old_v: Seq<u32>,
    new_v: Seq<u32>,
    prev: Seq<ChunkRecord>,
    next: Seq<ChunkRecord>,
    c: ChunkRecord,
    p: u64,
    visible: bool,
    blades: bool,
)
    requires
        next.len() > 0,
        next.drop_last() == prev,
        next.last() == c,
        c.lod_index < usize::MAX,
        lod_counters_ok(old_v, prev, p, visible, blades),
        new_v.len() == lod_slots(next, p),
        lod_slots(next, p) <= usize::MAX,
        lod_step(old_v, new_v, c, p, visible, blades),
    ensures
        lod_counters_ok(new_v, next, p, visible, blades),
{
    assert forall|l: int| 0 <= l < new_v.len() implies #[trigger] new_v[l] == (if blades {
        blades_selected(next, ChunkFilter { patch: Some(p), lod: Some(l as usize), visible_only: visible })
    } else {
        count_selected(next, ChunkFilter { patch: Some(p), lod: Some(l as usize), visible_only: visible })
    }) by {
        if l >= old_v.len() {
            lemma_lod_beyond_slots_empty(prev, p, l);
        }
    }
}

fn bump(v: &mut Vec<u32>, l: usize, amount: u32)
    requires
        l < old(v)@.len(),
        old(v)@[l as int] + amount <= u32::MAX,
    ensures
        final(v)@ == old(v)@.update(l as int, (old(v)@[l as int] + amount) as u32),
{
    let cur = v[l];
    v.set(l, cur + amount);
}

/// Counts the chunks of one patch, in total, visible, and per LOD band.
pub fn tally_patch(record: PatchRecord, chunks: &[ChunkRecord]) -> (d: GrassPatchDiagnostics)
    requires
        chunks@.len() <= u32::MAX,
        blades_selected(chunks@, all_chunks()) <= u32::MAX,
        forall|i: int| 0 <= i < chunks@.len() ==> #[trigger] chunks@[i].lod_index < usize::MAX,
    ensures
        describes_patch(d, record, chunks@),
{
    let p = record.entity;
    let ghost s = chunks@;
    let mut chunk_count: u32 = 0;
    let mut blade_count: u32 = 0;
    let mut visible_chunk_count: u32 = 0;
    let mut visible_blade_count: u32 = 0;
    let mut lod_chunk_counts = zeros(3);
    let mut lod_blade_counts = zeros(3);
    let mut visible_lod_chunk_counts = zeros(3);
    let mut visible_lod_blade_counts = zeros(3);
    proof {
        assert(s.take(0) =~= Seq::<ChunkRecord>::empty());
    }
    let mut i: usize = 0;
    while i < chunks.len()
        invariant
            s == chunks@,
            s.len() <= u32::MAX,
            blades_selected(s, all_chunks()) <= u32::MAX,
            forall|k: int| 0 <= k < s.len() ==> #[trigger] s[k].lod_index < usize::MAX,
            0 <= i <= s.len(),
            chunk_count == count_selected(s.take(i as int), patch_chunks(p)),
            blade_count == blades_selected(s.take(i as int), patch_chunks(p)),
            visible_chunk_count == count_selected(s.take(i as int), visible_patch_chunks(p)),
            visible_blade_count == blades_selected(s.take(i as int), visible_patch_chunks(p)),
            lod_counters_ok(lod_chunk_counts@, s.take(i as int), p, false, false),
            lod_counters_ok(lod_blade_counts@, s.take(i as int), p, false, true),
            lod_counters_ok(visible_lod_chunk_counts@, s.take(i as int), p, true, false),
            lod_counters_ok(visible_lod_blade_counts@, s.take(i as int), p, true, true),
            lod_slots(s.take(i as int), p) <= usize::MAX,
        decreases s.len() - i,
    {
        let c = chunks[i];
        let ghost prev = s.take(i as int);
        let ghost next = s.take(i + 1);
        proof {
            lemma_take_step(s, i as int);
            lemma_prefix_bounded(s, i + 1, patch_chunks(p));
            lemma_prefix_bounded(s, i + 1, visible_patch_chunks(p));
        }
        let ghost v0 = lod_chunk_counts@;
        let ghost v1 = lod_blade_counts@;
        let ghost v2 = visible_lod_chunk_counts@;
        let ghost v3 = visible_lod_blade_counts@;
        if c.patch == p {
            let idx = c.lod_index;
            if idx >= lod_chunk_counts.len() {
                proof {
                    assert forall|l: int| lod_slots(prev, p) <= l <= usize::MAX implies
                        count_selected(prev, lod_chunks(p, l)) == 0
                        && blades_selected(prev, lod_chunks(p, l)) == 0
                        && count_selected(prev, visible_lod_chunks(p, l)) == 0
                        && blades_selected(prev, visible_lod_chunks(p, l)) == 0 by {
                        lemma_lod_beyond_slots_empty(prev, p, l);
                    }
                }
                grow_zeros(&mut lod_chunk_counts, idx + 1);
                grow_zeros(&mut lod_blade_counts, idx + 1);
                grow_zeros(&mut visible_lod_chunk_counts, idx + 1);
                grow_zeros(&mut visible_lod_blade_counts, idx + 1);
            }
            proof {
                lemma_prefix_bounded(s, i + 1, lod_chunks(p, idx as int));
                lemma_prefix_bounded(s, i + 1, visible_lod_chunks(p, idx as int));
            }
            chunk_count = chunk_count + 1;
            blade_count = blade_count + c.blade_count;
            bump(&mut lod_chunk_counts, idx, 1);
            bump(&mut lod_blade_counts, idx, c.blade_count);
            if c.visible {
                visible_chunk_count = visible_chunk_count + 1;
                visible_blade_count = visible_blade_count + c.blade_count;
                bump(&mut visible_lod_chunk_counts, idx, 1);
                bump(&mut visible_lod_blade_counts, idx, c.blade_count);
            }
        }
        proof {
            assert(lod_step(v0, lod_chunk_counts@, c, p, false, false));
            assert(lod_step(v1, lod_blade_counts@, c, p, false, true));
            assert(lod_step(v2, visible_lod_chunk_counts@, c, p, true, false));
            assert(lod_step(v3, visible_lod_blade_counts@, c, p, true, true));
            lemma_lod_counter_step(v0, lod_chunk_counts@, prev, next, c, p, false, false);
            lemma_lod_counter_step(v1, lod_blade_counts@, prev, next, c, p, false, true);
            lemma_lod_counter_step(v2, visible_lod_chunk_counts@, prev, next, c, p, true, false);
            lemma_lod_counter_step(v3, visible_lod_blade_counts@, prev, next, c, p, true, true);
        }
        i = i + 1;
    }
    proof {
        assert(s.take(s.len() as int) =~= s);
    }
    let name = match record.name {
        Some(n) => n,
        None => patch_label(record.entity_index),
    };
    GrassPatchDiagnostics {
        entity: p,
        name,
        chunk_count,
        blade_count,
        visible_chunk_count,
        visible_blade_count,
        lod_chunk_counts,
        lod_blade_counts,
        visible_lod_chunk_counts,
        visible_lod_blade_counts,
        dirty: record.dirty,
    }
}


/// A per-LOD counter of patch `p`: chunks or blades, all or visible only.
pub open spec fn lod_value(s: Seq<ChunkRecord>, p: u64, l: int, visible: bool, blades: bool) -> int {
    let f = ChunkFilter { patch: Some(p), lod: Some(l as usize), visible_only: visible };
    if blades {
        blades_selected(s, f) as int
    } else {
        count_selected(s, f) as int
    }
}

/// The matching whole-patch counter.
pub open spec fn patch_value(s: Seq<ChunkRecord>, p: u64, visible: bool, blades: bool) -> int {
    let f = ChunkFilter { patch: Some(p), lod: None, visible_only: visible };
    if blades {
        blades_selected(s, f) as int
    } else {
        count_selected(s, f) as int
    }
}

/// Sum of the first `n` per-LOD counters.
pub open spec fn lod_sum(s: Seq<ChunkRecord>, p: u64, n: nat, visible: bool, blades: bool) -> int
    decreases n,
{
    if n == 0 {
        0
    } else {
        lod_sum(s, p, (n - 1) as nat, visible, blades) + lod_value(s, p, n - 1, visible, blades)
    }
}

proof fn lemma_lod_sum_step(
    s: Seq<ChunkRecord>,
    p: u64,
    n: nat,
    visible: bool,
    blades: bool,
)
    requires
        s.len() > 0,
        n <= usize::MAX + 1,
    ensures
        lod_sum(s, p, n, visible, blades) == lod_sum(s.drop_last(), p, n, visible, blades) + (if s.last().patch
            == p && s.last().lod_index < n && (visible ==> s.last().visible) {
            if blades {
                s.last().blade_count as int
            } else {
                1
            }
        } else {
            0
        }),
    decreases n,
{
    if n > 0 {
        lemma_lod_sum_step(s, p, (n - 1) as nat, visible, blades);
    }
}

proof fn lemma_lod_sum_flat(s: Seq<ChunkRecord>, p: u64, n: nat, visible: bool, blades: bool)
    requires
        lod_slots(s, p) <= n <= usize::MAX + 1,
    ensures
        lod_sum(s, p, n, visible, blades) == lod_sum(s, p, lod_slots(s, p), visible, blades),
    decreases n,
{
    if n > lod_slots(s, p) {
        lemma_lod_sum_flat(s, p, (n - 1) as nat, visible, blades);
        lemma_lod_beyond_slots_empty(s, p, n - 1);
    }
}

/// The per-LOD counters of a patch add up to its totals: every chunk of the
/// patch is counted in exactly one LOD slot (chunks and blades, all and visible).
pub proof fn lemma_lod_counts_partition(s: Seq<ChunkRecord>, p: u64, visible: bool, blades: bool)
    requires
        forall|i: int| 0 <= i < s.len() ==> #[trigger] s[i].lod_index < usize::MAX,
    ensures
        lod_sum(s, p, lod_slots(s, p), visible, blades) == patch_value(s, p, visible, blades),
    decreases s.len(),
{
    if s.len() > 0 {
        let prev = s.drop_last();
        assert forall|i: int| 0 <= i < prev.len() implies #[trigger] prev[i].lod_index < usize::MAX by {
            assert(prev[i] == s[i]);
        }
        assert(s.last() == s[s.len() - 1]);
        lemma_lod_counts_partition(prev, p, visible, blades);
        lemma_lod_slots_bounded(s, p);
        lemma_lod_sum_step(s, p, lod_slots(s, p), visible, blades);
        lemma_lod_sum_flat(prev, p, lod_slots(s, p), visible, blades);
    } else {
        assert(lod_sum(s, p, 0, visible, blades) == 0);
        assert(lod_value(s, p, 0, visible, blades) == 0);
        assert(lod_value(s, p, 1, visible, blades) == 0);
        assert(lod_value(s, p, 2, visible, blades) == 0);
        assert(lod_sum(s, p, 1, visible, blades) == 0);
        assert(lod_sum(s, p, 2, visible, blades) == 0);
        assert(lod_sum(s, p, 3, visible, blades) == 0);
    }
}

proof fn lemma_lod_slots_bounded(s: Seq<ChunkRecord>, p: u64)
    requires
        forall|i: int| 0 <= i < s.len() ==> #[trigger] s[i].lod_index < usize::MAX,
    ensures
        lod_slots(s, p) <= usize::MAX,
        s.len() > 0 ==> lod_slots(s.drop_last(), p) <= lod_slots(s, p),
    decreases s.len(),
{
    if s.len() > 0 {
        let prev = s.drop_last();
        assert forall|i: int| 0 <= i < prev.len() implies #[trigger] prev[i].lod_index < usize::MAX by {
            assert(prev[i] == s[i]);
        }
        assert(s.last() == s[s.len() - 1]);
        lemma_lod_slots_bounded(prev, p);
    }
}

/// Visible counters never exceed the matching totals.
pub proof fn lemma_visible_within_total(s: Seq<ChunkRecord>, patch: Option<u64>, lod: Option<usize>)
    ensures
        count_selected(s, ChunkFilter { patch, lod, visible_only: true }) <= count_selected(
            s,
            ChunkFilter { patch, lod, visible_only: false },
        ),
        blades_selected(s, ChunkFilter { patch, lod, visible_only: true }) <= blades_selected(
            s,
            ChunkFilter { patch, lod, visible_only: false },
        ),
    decreases s.len(),
{
    if s.len() > 0 {
        lemma_visible_within_total(s.drop_last(), patch, lod);
    }
}


/// Sum of the first `n` entries of a counter vector.
pub open spec fn counter_sum(v: Seq<u32>, n: nat) -> int
    decreases n,
{
    if n == 0 {
        0
    } else {
        counter_sum(v, (n - 1) as nat) + v[n - 1] as int
    }
}

proof fn lemma_counter_sum_matches(
    v: Seq<u32>,
    s: Seq<ChunkRecord>,
    p: u64,
    n: nat,
    visible: bool,
    blades: bool,
)
    requires
        n <= v.len(),
        forall|l: int| 0 <= l < v.len() ==> #[trigger] v[l] == lod_value(s, p, l, visible, blades),
    ensures
        counter_sum(v, n) == lod_sum(s, p, n, visible, blades),
    decreases n,
{
    if n > 0 {
        lemma_counter_sum_matches(v, s, p, (n - 1) as nat, visible, blades);
    }
}

/// In a patch's diagnostics, the per-LOD counters add up to the patch totals:
/// chunks, blades, visible chunks and visible blades.
pub proof fn lemma_patch_lod_counters_add_up(d: GrassPatchDiagnostics, rec: PatchRecord, s: Seq<ChunkRecord>)
    requires
        describes_patch(d, rec, s),
        forall|i: int| 0 <= i < s.len() ==> #[trigger] s[i].lod_index < usize::MAX,
    ensures
        counter_sum(d.lod_chunk_counts@, d.lod_chunk_counts@.len()) == d.chunk_count,
        counter_sum(d.lod_blade_counts@, d.lod_blade_counts@.len()) == d.blade_count,
        counter_sum(d.visible_lod_chunk_counts@, d.visible_lod_chunk_counts@.len())
            == d.visible_chunk_count,
        counter_sum(d.visible_lod_blade_counts@, d.visible_lod_blade_counts@.len())
            == d.visible_blade_count,
{
    let p = rec.entity;
    let n = lod_slots(s, p);
    assert forall|l: int| 0 <= l < n implies #[trigger] d.lod_chunk_counts@[l] == lod_value(s, p, l, false, false) by {}
    assert forall|l: int| 0 <= l < n implies #[trigger] d.lod_blade_counts@[l] == lod_value(s, p, l, false, true) by {
        let _ = d.lod_chunk_counts@[l];
    }
    assert forall|l: int| 0 <= l < n implies #[trigger] d.visible_lod_chunk_counts@[l] == lod_value(s, p, l, true, false) by {
        let _ = d.lod_chunk_counts@[l];
    }
    assert forall|l: int| 0 <= l < n implies #[trigger] d.visible_lod_blade_counts@[l] == lod_value(s, p, l, true, true) by {
        let _ = d.lod_chunk_counts@[l];
    }
    lemma_counter_sum_matches(d.lod_chunk_counts@, s, p, n, false, false);
    lemma_counter_sum_matches(d.lod_blade_counts@, s, p, n, false, true);
    lemma_counter_sum_matches(d.visible_lod_chunk_counts@, s, p, n, true, false);
    lemma_counter_sum_matches(d.visible_lod_blade_counts@, s, p, n, true, true);
    lemma_lod_counts_partition(s, p, false, false);
    lemma_lod_counts_partition(s, p, false, true);
    lemma_lod_counts_partition(s, p, true, false);
    lemma_lod_counts_partition(s, p, true, true);
}


/// Runtime-wide diagnostics.
pub struct GrassDiagnostics {
    pub runtime_active: bool,
    pub active_patches: u32,
    pub active_chunks: u32,
    pub active_blades: u32,
    pub visible_chunks: u32,
    pub visible_blades: u32,
    pub interaction_zones: u32,
    pub using_world_wind: bool,
    pub wind_zone_count: u32,
    pub patches: Vec<GrassPatchDiagnostics>,
}

fn copy_record(r: &PatchRecord) -> (c: PatchRecord)
    ensures
        c.entity == r.entity,
        c.entity_index == r.entity_index,
        c.dirty == r.dirty,
        c.name is Some <==> r.name is Some,
        c.name matches Some(n) ==> n@ == r.name->0@,
{
    let name = match &r.name {
        Some(n) => Some(n.clone()),
        None => None,
    };
    PatchRecord { entity: r.entity, entity_index: r.entity_index, name, dirty: r.dirty }
}

/// Recomputes the diagnostics from the current patches and generated chunks.
/// Counts of entities are reported as `u32`, truncated as the `as` cast does.
pub fn publish_diagnostics(
    runtime_active: bool,
    patches: &[PatchRecord],
    chunks: &[ChunkRecord],
    interaction_zone_count: usize,
    wind_bridge_enabled: bool,
    has_wind_config: bool,
    wind_zone_count: usize,
) -> (d: GrassDiagnostics)
    requires
        chunks@.len() <= u32::MAX,
        blades_selected(chunks@, all_chunks()) <= u32::MAX,
        forall|i: int| 0 <= i < chunks@.len() ==> #[trigger] chunks@[i].lod_index < usize::MAX,
    ensures
        d.runtime_active == runtime_active,
        d.active_patches == patches@.len() as u32,
        d.active_chunks == chunks@.len() as u32,
        d.active_blades == blades_selected(chunks@, all_chunks()),
        d.visible_chunks == count_selected(chunks@, visible_chunks()) as u32,
        d.visible_blades == blades_selected(chunks@, visible_chunks()),
        d.interaction_zones == interaction_zone_count as u32,
        d.using_world_wind == (wind_bridge_enabled && has_wind_config),
        d.wind_zone_count == wind_zone_count as u32,
        d.patches@.len() == patches@.len(),
        forall|i: int|
            0 <= i < patches@.len() ==> describes_patch(#[trigger] d.patches@[i], patches@[i], chunks@),
{
    let ghost s = chunks@;
    let mut active_blades: u32 = 0;
    let mut visible_count: usize = 0;
    let mut visible_blades: u32 = 0;
    proof {
        assert(s.take(0) =~= Seq::<ChunkRecord>::empty());
    }
    let mut i: usize = 0;
    while i < chunks.len()
        invariant
            s == chunks@,
            s.len() <= u32::MAX,
            blades_selected(s, all_chunks()) <= u32::MAX,
            0 <= i <= s.len(),
            active_blades == blades_selected(s.take(i as int), all_chunks()),
            visible_count == count_selected(s.take(i as int), visible_chunks()),
            visible_blades == blades_selected(s.take(i as int), visible_chunks()),
        decreases s.len() - i,
    {
        let c = chunks[i];
        proof {
            lemma_take_step(s, i as int);
            lemma_prefix_bounded(s, i + 1, all_chunks());
            lemma_prefix_bounded(s, i + 1, visible_chunks());
        }
        active_blades = active_blades + c.blade_count;
        if c.visible {
            visible_count = visible_count + 1;
            visible_blades = visible_blades + c.blade_count;
        }
        i = i + 1;
    }
    proof {
        assert(s.take(s.len() as int) =~= s);
    }
    let mut entries: Vec<GrassPatchDiagnostics> = Vec::new();
    let mut k: usize = 0;
    while k < patches.len()
        invariant
            s == chunks@,
            s.len() <= u32::MAX,
            blades_selected(s, all_chunks()) <= u32::MAX,
            forall|j: int| 0 <= j < s.len() ==> #[trigger] s[j].lod_index < usize::MAX,
            0 <= k <= patches@.len(),
            entries@.len() == k,
            forall|j: int| 0 <= j < k ==> describes_patch(#[trigger] entries@[j], patches@[j], s),
        decreases patches@.len() - k,
    {
        let record = copy_record(&patches[k]);
        let ghost copied = record;
        let entry = tally_patch(record, chunks);
        proof {
            let given = patches@[k as int];
            assert(describes_patch(entry, copied, s));
            match given.name {
                Some(n) => {
                    assert(copied.name is Some);
                    assert(entry.name@ == copied.name->0@);
                    assert(entry.name@ == n@);
                },
                None => {
                    assert(copied.name is None);
                },
            }
            assert(describes_patch(entry, given, s));
        }
        entries.push(entry);
        k = k + 1;
    }
    GrassDiagnostics {
        runtime_active,
        active_patches: patches.len() as u32,
        active_chunks: chunks.len() as u32,
        active_blades,
        visible_chunks: visible_count as u32,
        visible_blades,
        interaction_zones: interaction_zone_count as u32,
        using_world_wind: wind_bridge_enabled && has_wind_config,
        wind_zone_count: wind_zone_count as u32,
        patches: entries,
    }
}

} // verus!
