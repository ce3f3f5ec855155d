use vstd::prelude::*;

verus! {

/// Whether the grass runtime is active (between the activate and deactivate schedules).
pub struct GrassRuntimeState {
    active: bool,
}

impl GrassRuntimeState {
    /// Whether the runtime is active.
    pub closed spec fn is_active(self) -> bool {
        self.active
    }

    /// A runtime that has not been activated yet.
    pub fn new() -> (r: Self)
        ensures
            !r.is_active(),
    {
        GrassRuntimeState { active: false }
    }

    /// Run condition of the update systems.
    pub fn runtime_is_active(&self) -> (b: bool)
        ensures
            b == self.is_active(),
    {
        self.active
    }

    /// Entering the activate schedule: the runtime becomes active.
    pub fn activate(&mut self)
        ensures
            final(self).is_active(),
    {
        self.active = true;
    }

    /// Entering the deactivate schedule: the runtime becomes inactive.
    pub fn deactivate(&mut self)
        ensures
            !final(self).is_active(),
    {
        self.active = false;
    }
}

/// Per-patch rebuild bookkeeping: whether the patch must be rebuilt, and the
/// chunk entities (`E`) and material handles (`M`) its last rebuild produced.
pub struct GrassPatchState<E, M> {
    dirty: bool,
    generated_chunks: Vec<E>,
    material_handles: Vec<M>,
}

impl<E, M> GrassPatchState<E, M> {
    pub closed spec fn is_dirty(self) -> bool {
        self.dirty
    }

    /// Chunk entities generated by the last rebuild, in spawn order.
    pub closed spec fn chunks(self) -> Seq<E> {
        self.generated_chunks@
    }

    /// Material handles created by the last rebuild, in creation order.
    pub closed spec fn materials(self) -> Seq<M> {
        self.material_handles@
    }

    /// A clean patch with no generated output.
    pub fn new() -> (s: Self)
        ensures
            !s.is_dirty(),
            s.chunks() == Seq::<E>::empty(),
            s.materials() == Seq::<M>::empty(),
    {
        GrassPatchState { dirty: false, generated_chunks: Vec::new(), material_handles: Vec::new() }
    }

    /// Whether the patch waits for a rebuild.
    pub fn dirty(&self) -> (b: bool)
        ensures
            b == self.is_dirty(),
    {
        self.dirty
    }

    /// Chunk entities of the last rebuild.
    pub fn generated_chunks(&self) -> (c: &Vec<E>)
        ensures
            c@ == self.chunks(),
    {
        &self.generated_chunks
    }

    /// Requests a rebuild on the next scatter pass (rebuild request, patch or
    /// config change, watched asset change).
    pub fn mark_dirty(&mut self)
        ensures
            final(self).is_dirty(),
            final(self).chunks() == old(self).chunks(),
            final(self).materials() == old(self).materials(),
    {
        self.dirty = true;
    }

    /// Runtime activation: every patch is rebuilt.
    pub fn on_activate(&mut self)
        ensures
            final(self).is_dirty(),
            final(self).chunks() == old(self).chunks(),
            final(self).materials() == old(self).materials(),
    {
        self.dirty = true;
    }

    /// Runtime deactivation: the generated chunks are forgotten (the caller
    /// despawns every generated entity), the materials are handed back for
    /// removal, and the patch is left dirty for the next activation.
    pub fn on_deactivate(&mut self) -> (materials: Vec<M>)
        ensures
            materials@ == old(self).materials(),
            final(self).is_dirty(),
            final(self).chunks() == Seq::<E>::empty(),
            final(self).materials() == Seq::<M>::empty(),
    {
        self.generated_chunks = Vec::new();
        let mut materials: Vec<M> = Vec::new();
        std::mem::swap(&mut materials, &mut self.material_handles);
        self.dirty = true;
        materials
    }

    /// Whether a change of the source mesh entity requires a rebuild: the
    /// source's mesh changed, or the source is gone while chunks still exist.
    pub fn surface_change_needs_rebuild(&self, source_changed: bool, source_missing: bool) -> (b: bool)
        ensures
            b == (source_changed || (source_missing && self.chunks().len() > 0)),
    {
        source_changed || (source_missing && self.generated_chunks.len() > 0)
    }

    /// Starts a rebuild. A clean patch is left alone (`None`). A dirty one hands
    /// back its previous chunks (to despawn) and materials (to remove).
    pub fn begin_rebuild(&mut self) -> (out: Option<(Vec<E>, Vec<M>)>)
        ensures
            !old(self).is_dirty() ==> out is None && *final(self) == *old(self),
            old(self).is_dirty() ==> {
                &&& out matches Some((chunks, materials))
                &&& chunks@ == old(self).chunks()
                &&& materials@ == old(self).materials()
                &&& final(self).is_dirty()
                &&& final(self).chunks() == Seq::<E>::empty()
                &&& final(self).materials() == Seq::<M>::empty()
            },
    {
        if !self.dirty {
            return None;
        }
        let mut chunks: Vec<E> = Vec::new();
        std::mem::swap(&mut chunks, &mut self.generated_chunks);
        let mut materials: Vec<M> = Vec::new();
        std::mem::swap(&mut materials, &mut self.material_handles);
        Some((chunks, materials))
    }

    /// Records a chunk spawned by the running rebuild together with its material.
    pub fn record_chunk(&mut self, chunk: E, material: M)
        ensures
            final(self).is_dirty() == old(self).is_dirty(),
            final(self).chunks() == old(self).chunks().push(chunk),
            final(self).materials() == old(self).materials().push(material),
    {
        self.material_handles.push(material);
        self.generated_chunks.push(chunk);
    }

    /// Ends a rebuild (also when no surface could be built): the patch is clean.
    pub fn finish_rebuild(&mut self)
        ensures
            !final(self).is_dirty(),
            final(self).chunks() == old(self).chunks(),
            final(self).materials() == old(self).materials(),
    {
        self.dirty = false;
    }
}

/// Whether a batch of asset events requires a patch rebuild: the mesh of the
/// patch's source surface changed, or the image of its density map or of one of
/// its density layers changed (`image_changed[i]` tells whether the i-th
/// watched image is among the changed assets).
pub fn asset_change_needs_rebuild(surface_mesh_changed: bool, image_changed: &[bool]) -> (b: bool)
    ensures
        b == (surface_mesh_changed || exists|i: int| 0 <= i < image_changed@.len() && #[trigger] image_changed@[i]),
{
    if surface_mesh_changed {
        return true;
    }
    let mut i: usize = 0;
    while i < image_changed.len()
        invariant
            i <= image_changed@.len(),
            forall|k: int| 0 <= k < i ==> !#[trigger] image_changed@[k],
        decreases image_changed@.len() - i,
    {
        if image_changed[i] {
            return true;
        }
        i = i + 1;
    }
    false
}

} // verus!
