//! Surfaces, their pixel buffers, and how both are looked up.

use vstd::prelude::*;
use crate::input::SyntheticEvent;

verus! {

/// The extent of a surface in world units: `size_x` along its local X axis
/// and `size_y` along its second planar axis. The surface is centred on its
/// transform's origin.
#[derive(Clone, Copy, Debug)]
pub struct WorldUI<S> {
    pub size_x: S,
    pub size_y: S,
}

impl<S> WorldUI<S> {
    /// A surface of the given extent.
    pub fn new(size_x: S, size_y: S) -> (ui: WorldUI<S>)
        ensures
            ui.size_x == size_x,
            ui.size_y == size_y,
    {
        WorldUI { size_x, size_y }
    }
}

/// A live pixel buffer, known to the texture store under `handle`.
#[derive(Clone, Copy, Debug, PartialEq, Eq)]
pub struct PixelBuffer {
    pub handle: u64,
    pub width: u32,
    pub height: u32,
}

/// One surface of the scene: the entity it belongs to, its extent, its world
/// transform, the handle of the texture that its UI is rendered into, and
/// the queue of input events that its UI will consume.
#[derive(Clone, Debug)]
pub struct Surface<S, T, P> {
    pub entity: u64,
    pub world_ui: WorldUI<S>,
    pub transform: T,
    pub texture: u64,
    pub input: Vec<SyntheticEvent<P>>,
}

/// `after` is the scene `before` with nothing changed but, possibly, the
/// contents of input queues: the same surfaces in the same places, each with
/// its entity, extent, transform and texture handle.
pub open spec fn same_surfaces<S, T, P>(
    before: Seq<Surface<S, T, P>>,
    after: Seq<Surface<S, T, P>>,
) -> bool {
    &&& after.len() == before.len()
    &&& forall|i: int|
        0 <= i < before.len() ==> {
            &&& (#[trigger] after[i]).entity == before[i].entity
            &&& after[i].world_ui == before[i].world_ui
            &&& after[i].transform == before[i].transform
            &&& after[i].texture == before[i].texture
        }
}

/// `i` is the place of the first surface in `surfaces` that belongs to
/// `entity`.
pub open spec fn is_surface_of<S, T, P>(
    surfaces: Seq<Surface<S, T, P>>,
    entity: u64,
    i: int,
) -> bool {
    &&& 0 <= i < surfaces.len()
    &&& surfaces[i].entity == entity
    &&& forall|j: int| 0 <= j < i ==> (#[trigger] surfaces[j]).entity != entity
}

/// The place of the surface that belongs to `entity`, if the scene holds
/// one. Where several surfaces name the same entity, the first one counts.
pub open spec fn surface_of<S, T, P>(surfaces: Seq<Surface<S, T, P>>, entity: u64) -> Option<int> {
    if exists|i: int| is_surface_of(surfaces, entity, i) {
        Some(choose|i: int| is_surface_of(surfaces, entity, i))
    } else {
        None
    }
}

/// `i` is the place of the first buffer in `textures` that is stored under
/// `handle`.
pub open spec fn is_buffer_of(textures: Seq<PixelBuffer>, handle: u64, i: int) -> bool {
    &&& 0 <= i < textures.len()
    &&& textures[i].handle == handle
    &&& forall|j: int| 0 <= j < i ==> (#[trigger] textures[j]).handle != handle
}

/// The live pixel buffer behind `handle`, if the store holds one. Where
/// several buffers are stored under the same handle, the first one counts.
pub open spec fn buffer_of(textures: Seq<PixelBuffer>, handle: u64) -> Option<PixelBuffer> {
    if exists|i: int| is_buffer_of(textures, handle, i) {
        Some(textures[choose|i: int| is_buffer_of(textures, handle, i)])
    } else {
        None
    }
}

/// At most one place is the first match for an entity, and it is the one
/// that `surface_of` names.
pub proof fn lemma_surface_of<S, T, P>(surfaces: Seq<Surface<S, T, P>>, entity: u64, i: int)
    requires
        is_surface_of(surfaces, entity, i),
    ensures
        surface_of(surfaces, entity) == Some(i),
{
    let k = choose|k: int| is_surface_of(surfaces, entity, k);
    assert(k == i) by {
        if k < i {
            assert(surfaces[k].entity != entity);
        } else if i < k {
            assert(surfaces[i].entity != entity);
        }
    }
}

/// At most one place is the first match for a handle, and it holds the
/// buffer that `buffer_of` names.
pub proof fn lemma_buffer_of(textures: Seq<PixelBuffer>, handle: u64, i: int)
    requires
        is_buffer_of(textures, handle, i),
    ensures
        buffer_of(textures, handle) == Some(textures[i]),
{
    let k = choose|k: int| is_buffer_of(textures, handle, k);
    assert(k == i) by {
        if k < i {
            assert(textures[k].handle != handle);
        } else if i < k {
            assert(textures[i].handle != handle);
        }
    }
}

/// Looks up the surface that belongs to `entity`: the place of the first
/// surface with that entity, or `None` if the scene holds no such surface.
pub fn find_surface<S, T, P>(
    surfaces: &Vec<Surface<S, T, P>>,
    entity: u64,
) -> (found: Option<usize>)
    ensures
        match found {
            Some(i) => is_surface_of(surfaces@, entity, i as int)
                && surface_of(surfaces@, entity) == Some(i as int),
            None => surface_of(surfaces@, entity) is None
                && forall|j: int|
                    0 <= j < surfaces.len() ==> (#[trigger] surfaces@[j]).entity != entity,
        },
{
    let mut i: usize = 0;
    while i < surfaces.len()
        invariant
            i <= surfaces.len(),
            forall|j: int| 0 <= j < i ==> (#[trigger] surfaces@[j]).entity != entity,
        decreases surfaces.len() - i,
    {
        if surfaces[i].entity == entity {
            proof {
                lemma_surface_of(surfaces@, entity, i as int);
            }
            return Some(i);
        }
        i += 1;
    }
    None
}

/// Looks up the live pixel buffer behind `handle`: the first buffer stored
/// under that handle, or `None` if the store holds no such buffer.
pub fn find_buffer(textures: &Vec<PixelBuffer>, handle: u64) -> (found: Option<PixelBuffer>)
    ensures
        found == buffer_of(textures@, handle),
        found matches Some(buffer) ==> buffer.handle == handle,
        found is None ==> forall|j: int|
            0 <= j < textures.len() ==> (#[trigger] textures@[j]).handle != handle,
{
    let mut i: usize = 0;
    while i < textures.len()
        invariant
            i <= textures.len(),
            forall|j: int| 0 <= j < i ==> (#[trigger] textures@[j]).handle != handle,
        decreases textures.len() - i,
    {
        if textures[i].handle == handle {
            proof {
                lemma_buffer_of(textures@, handle, i as int);
            }
            return Some(textures[i]);
        }
        i += 1;
    }
    None
}

} // verus!
