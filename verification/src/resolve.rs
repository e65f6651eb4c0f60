//! What becomes of one pointer interaction: dropped, fatal, or a hit.

use vstd::prelude::*;
use crate::pointer::Request;
use crate::surface::{
    buffer_of, find_buffer, find_surface, is_surface_of, lemma_surface_of, same_surfaces,
    surface_of, PixelBuffer, Surface,
};

verus! {

/// A surface that still receives pointer interactions has no live pixel
/// buffer: `entity` is the surface, `texture` the handle that resolved to
/// nothing.
#[derive(Clone, Copy, Debug, PartialEq, Eq)]
pub struct MissingBuffer {
    pub entity: u64,
    pub texture: u64,
}

/// What becomes of one pointer interaction.
#[derive(Clone, Copy, Debug, PartialEq, Eq)]
pub enum Resolution {
    /// The interaction has no effect: its target is no surface of the scene,
    /// or it carries no resolved hit.
    Skip,
    /// The interaction hit a surface, yet no live pixel buffer stands behind
    /// the surface's texture handle.
    Fatal(MissingBuffer),
    /// The interaction hit the surface at place `surface`, whose pixel buffer
    /// measures `width` by `height` pixels.
    Hit { surface: usize, width: u32, height: u32 },
}

/// What becomes of an interaction that addresses `target`, where `located`
/// says whether it carries a resolved hit.
///
/// An interaction whose target is no surface of the scene is skipped, and so
/// is one that carries no resolved hit. Only an interaction that passed both
/// tests asks for the pixel buffer, so only such an interaction can be fatal.
pub open spec fn resolution<S, T, P>(
    surfaces: Seq<Surface<S, T, P>>,
    textures: Seq<PixelBuffer>,
    target: u64,
    located: bool,
) -> Resolution {
    match surface_of(surfaces, target) {
        None => Resolution::Skip,
        Some(i) => if !located {
            Resolution::Skip
        } else {
            match buffer_of(textures, surfaces[i].texture) {
                None => Resolution::Fatal(
                    MissingBuffer { entity: target, texture: surfaces[i].texture },
                ),
                Some(buffer) => Resolution::Hit {
                    surface: i as usize,
                    width: buffer.width,
                    height: buffer.height,
                },
            }
        },
    }
}

/// What becomes of `request` in the scene.
pub open spec fn outcome_of<S, T, P, V>(
    surfaces: Seq<Surface<S, T, P>>,
    textures: Seq<PixelBuffer>,
    request: Request<V>,
) -> Resolution {
    resolution(surfaces, textures, request.target, request.located())
}

/// Resolves an interaction that addresses `target` against the scene.
pub fn resolve<S, T, P>(
    surfaces: &Vec<Surface<S, T, P>>,
    textures: &Vec<PixelBuffer>,
    target: u64,
    located: bool,
) -> (outcome: Resolution)
    ensures
        outcome == resolution(surfaces@, textures@, target, located),
        outcome matches Resolution::Hit { surface, .. } ==> surface < surfaces.len(),
{
    match find_surface(surfaces, target) {
        None => Resolution::Skip,
        Some(i) => {
            if !located {
                Resolution::Skip
            } else {
                let texture = surfaces[i].texture;
                match find_buffer(textures, texture) {
                    None => Resolution::Fatal(MissingBuffer { entity: target, texture }),
                    Some(buffer) => Resolution::Hit {
                        surface: i,
                        width: buffer.width,
                        height: buffer.height,
                    },
                }
            }
        },
    }
}

/// Resolution reads the entities and texture handles of a scene, never its
/// input queues.
pub proof fn lemma_resolution_stable<S, T, P>(
    before: Seq<Surface<S, T, P>>,
    after: Seq<Surface<S, T, P>>,
    textures: Seq<PixelBuffer>,
    target: u64,
    located: bool,
)
    requires
        same_surfaces(before, after),
    ensures
        resolution(after, textures, target, located)
            == resolution(before, textures, target, located),
{
    assert forall|i: int| is_surface_of(before, target, i) implies is_surface_of(after, target, i) by {
        assert(after[i].entity == before[i].entity);
        assert forall|j: int| 0 <= j < i implies (#[trigger] after[j]).entity != target by {
            assert(before[j].entity != target);
        }
    }
    assert forall|i: int| is_surface_of(after, target, i) implies is_surface_of(before, target, i) by {
        assert(after[i].entity == before[i].entity);
        assert forall|j: int| 0 <= j < i implies (#[trigger] before[j]).entity != target by {
            assert(after[j].entity != target);
        }
    }
    match surface_of(before, target) {
        Some(i) => {
            assert(is_surface_of(after, target, i));
            lemma_surface_of(after, target, i);
            assert(after[i].texture == before[i].texture);
        },
        None => {
            assert(surface_of(after, target) is None);
        },
    }
}

} // verus!
