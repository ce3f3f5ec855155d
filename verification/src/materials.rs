use vstd::prelude::*;

verus! {

/// Interaction zones packed into one material uniform.
pub const MAX_INTERACTION_ZONES: usize = 4;

/// The zone slots of a material uniform: the first (at most four) zones in
/// order, the remaining slots left at `empty`, and the number of zones packed.
pub fn pack_interaction_zones<T: Copy>(zones: &[T], empty: T) -> (packed: ([T; 4], u32))
    ensures
        packed.1 == (if zones@.len() < 4 { zones@.len() } else { 4 }),
        forall|i: int| 0 <= i < packed.1 ==> #[trigger] packed.0@[i] == zones@[i],
        forall|i: int| packed.1 <= i < 4 ==> #[trigger] packed.0@[i] == empty,
{
    let mut slots: [T; 4] = [empty, empty, empty, empty];
    let mut count: usize = 0;
    while count < zones.len() && count < MAX_INTERACTION_ZONES
        invariant
            count <= 4,
            count <= zones@.len(),
            forall|i: int| 0 <= i < count ==> #[trigger] slots@[i] == zones@[i],
            forall|i: int| count <= i < 4 ==> #[trigger] slots@[i] == empty,
        decreases 4 - count,
    {
        slots.set(count, zones[count]);
        count = count + 1;
    }
    (slots, count as u32)
}

} // verus!
