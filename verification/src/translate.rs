//! From pointer interactions to synthetic input events.
//!
//! Every pending interaction is resolved against the scene. One that hits a
//! surface is projected to a pixel position by the caller's projection, and
//! the events that stand for it are appended to the input queue of the
//! surface it hit.

use vstd::prelude::*;
use crate::input::{synthesized, SyntheticEvent};
use crate::pointer::{pending, Interaction, Request, UIPointerClick, UIPointerMove};
use crate::resolve::{lemma_resolution_stable, outcome_of, resolve, MissingBuffer, Resolution};
use crate::surface::{same_surfaces, PixelBuffer, Surface, WorldUI};

verus! {

/// Appends the events that stand for one interaction of `kind` at pixel
/// position `pos` to the input queue of the surface at place `surface`.
/// Nothing else changes.
pub fn deliver<S, T, P: Copy>(
    surfaces: &mut Vec<Surface<S, T, P>>,
    surface: usize,
    kind: Interaction,
    pos: P,
)
    requires
        surface < old(surfaces).len(),
    ensures
        same_surfaces(old(surfaces)@, final(surfaces)@),
        final(surfaces)@[surface as int].input@
            == old(surfaces)@[surface as int].input@ + synthesized(kind, pos),
        forall|i: int|
            0 <= i < old(surfaces).len() && i != surface
                ==> (#[trigger] final(surfaces)@[i]) == old(surfaces)@[i],
{
    match kind {
        Interaction::Move => {
            surfaces[surface].input.push(SyntheticEvent::moved(pos));
        },
        Interaction::Click => {
            surfaces[surface].input.push(SyntheticEvent::primary(pos, true));
            surfaces[surface].input.push(SyntheticEvent::primary(pos, false));
        },
    }
    assert(surfaces@[surface as int].input@
        =~= old(surfaces)@[surface as int].input@ + synthesized(kind, pos));
}

/// Where `request` hits a surface, `project` can be called on what the
/// translator hands it: the surface's extent and transform, the world-space
/// hit point, and the width and height in pixels of the surface's buffer.
pub open spec fn projectable<S, T, P, V, F: Fn(&WorldUI<S>, &T, &V, u32, u32) -> P>(
    project: F,
    surfaces: Seq<Surface<S, T, P>>,
    textures: Seq<PixelBuffer>,
    request: Request<V>,
) -> bool {
    outcome_of(surfaces, textures, request) matches Resolution::Hit { surface, width, height }
        ==> call_requires(
        project,
        (
            &surfaces[surface as int].world_ui,
            &surfaces[surface as int].transform,
            &request.position->0,
            width,
            height,
        ),
    )
}

/// Where `request` hits a surface, `pixel` is a position that `project`
/// returns when it is handed the surface's extent and transform, the
/// world-space hit point, and the width and height in pixels of the
/// surface's buffer.
pub open spec fn projected<S, T, P, V, F: Fn(&WorldUI<S>, &T, &V, u32, u32) -> P>(
    project: F,
    surfaces: Seq<Surface<S, T, P>>,
    textures: Seq<PixelBuffer>,
    request: Request<V>,
    pixel: P,
) -> bool {
    outcome_of(surfaces, textures, request) matches Resolution::Hit { surface, width, height }
        ==> call_ensures(
        project,
        (
            &surfaces[surface as int].world_ui,
            &surfaces[surface as int].transform,
            &request.position->0,
            width,
            height,
        ),
        pixel,
    )
}

/// The events that `request` appends to the input queue of the surface at
/// place `i`, where `pixel` is the position that the request was projected
/// to: the events that stand for it if it hits that surface, none otherwise.
pub open spec fn appended<S, T, P, V>(
    surfaces: Seq<Surface<S, T, P>>,
    textures: Seq<PixelBuffer>,
    request: Request<V>,
    pixel: P,
    i: int,
) -> Seq<SyntheticEvent<P>> {
    match outcome_of(surfaces, textures, request) {
        Resolution::Hit { surface, .. } => if surface == i {
            synthesized(request.kind, pixel)
        } else {
            Seq::empty()
        },
        _ => Seq::empty(),
    }
}

/// Translates one pointer interaction.
///
/// A request that is skipped changes nothing and returns `Ok(None)`. A
/// request that hits a surface whose pixel buffer is missing changes nothing
/// and returns the error. Any other request is projected by `project`: the
/// events that stand for it are appended to the input queue of the surface
/// it hit, no other queue changes, and the pixel position is returned.
pub fn translate<S, T, P: Copy, V, F: Fn(&WorldUI<S>, &T, &V, u32, u32) -> P>(
    surfaces: &mut Vec<Surface<S, T, P>>,
    textures: &Vec<PixelBuffer>,
    request: &Request<V>,
    project: &F,
) -> (result: Result<Option<P>, MissingBuffer>)
    requires
        projectable(*project, old(surfaces)@, textures@, *request),
    ensures
        same_surfaces(old(surfaces)@, final(surfaces)@),
        match outcome_of(old(surfaces)@, textures@, *request) {
            Resolution::Skip => result == Ok::<Option<P>, MissingBuffer>(None),
            Resolution::Fatal(error) => result == Err::<Option<P>, MissingBuffer>(error),
            Resolution::Hit { .. } => result matches Ok(Some(pixel))
                && projected(*project, old(surfaces)@, textures@, *request, pixel),
        },
        forall|i: int|
            0 <= i < old(surfaces).len() ==> (#[trigger] final(surfaces)@[i]).input@
                == old(surfaces)@[i].input@ + (match result {
                Ok(Some(pixel)) => appended(old(surfaces)@, textures@, *request, pixel, i),
                _ => Seq::empty(),
            }),
{
    match (&request.position, &request.normal) {
        (Some(position), Some(_)) => {
            match resolve(surfaces, textures, request.target, true) {
                Resolution::Skip => {
                    proof {
                        lemma_nothing_appended(surfaces@, surfaces@);
                    }
                    Ok(None)
                },
                Resolution::Fatal(error) => {
                    proof {
                        lemma_nothing_appended(surfaces@, surfaces@);
                    }
                    Err(error)
                },
                Resolution::Hit { surface, width, height } => {
                    let pixel = project(
                        &surfaces[surface].world_ui,
                        &surfaces[surface].transform,
                        position,
                        width,
                        height,
                    );
                    deliver(surfaces, surface, request.kind, pixel);
                    proof {
                        lemma_nothing_appended(old(surfaces)@, surfaces@);
                    }
                    Ok(Some(pixel))
                },
            }
        },
        _ => {
            proof {
                lemma_nothing_appended(surfaces@, surfaces@);
            }
            Ok(None)
        },
    }
}

/// A queue that is left as it was is the queue with nothing appended.
proof fn lemma_nothing_appended<S, T, P>(
    before: Seq<Surface<S, T, P>>,
    after: Seq<Surface<S, T, P>>,
)
    requires
        after.len() == before.len(),
    ensures
        forall|i: int|
            0 <= i < before.len() && (#[trigger] after[i]).input@ == before[i].input@
                ==> after[i].input@ == before[i].input@ + Seq::<SyntheticEvent<P>>::empty(),
{
    assert forall|i: int|
        0 <= i < before.len() && (#[trigger] after[i]).input@ == before[i].input@
        implies after[i].input@ == before[i].input@ + Seq::<SyntheticEvent<P>>::empty() by {
        assert(before[i].input@ + Seq::<SyntheticEvent<P>>::empty() =~= before[i].input@);
    }
}

/// The events that `requests`, translated in order, append to the input
/// queue of the surface at place `i`, where `pixels[k]` is the position that
/// request `k` was projected to. Each request appends its events behind
/// those of all requests before it.
pub open spec fn queued<S, T, P, V>(
    surfaces: Seq<Surface<S, T, P>>,
    textures: Seq<PixelBuffer>,
    requests: Seq<Request<V>>,
    pixels: Seq<P>,
    i: int,
) -> Seq<SyntheticEvent<P>>
    decreases requests.len(),
{
    if requests.len() == 0 || pixels.len() != requests.len() {
        Seq::empty()
    } else {
        queued(surfaces, textures, requests.drop_last(), pixels.drop_last(), i)
            + appended(surfaces, textures, requests.last(), pixels.last(), i)
    }
}

/// `pixels` shows that `after` is the scene `before` once `requests` have
/// been translated in order: it holds, for each request that hits a surface,
/// a position that `project` returns for it, and every input queue of
/// `after` is the queue of `before` followed by what the requests append to
/// it.
pub open spec fn witnessed<S, T, P, V, F: Fn(&WorldUI<S>, &T, &V, u32, u32) -> P>(
    project: F,
    before: Seq<Surface<S, T, P>>,
    textures: Seq<PixelBuffer>,
    requests: Seq<Request<V>>,
    after: Seq<Surface<S, T, P>>,
    pixels: Seq<P>,
) -> bool {
    &&& pixels.len() == requests.len()
    &&& forall|k: int|
        0 <= k < requests.len()
            ==> projected(project, before, textures, #[trigger] requests[k], pixels[k])
    &&& forall|i: int|
        0 <= i < before.len() ==> (#[trigger] after[i]).input@
            == before[i].input@ + queued(before, textures, requests, pixels, i)
}

/// `after` is the scene `before` once `requests` have been translated in
/// order, each hit at a position that `project` returns for it. Nothing but
/// input queues differs between the two scenes.
pub open spec fn translated<S, T, P, V, F: Fn(&WorldUI<S>, &T, &V, u32, u32) -> P>(
    project: F,
    before: Seq<Surface<S, T, P>>,
    textures: Seq<PixelBuffer>,
    requests: Seq<Request<V>>,
    after: Seq<Surface<S, T, P>>,
) -> bool {
    &&& same_surfaces(before, after)
    &&& exists|pixels: Seq<P>| witnessed(project, before, textures, requests, after, pixels)
}

/// None of `requests` is fatal.
pub open spec fn all_survive<S, T, P, V>(
    surfaces: Seq<Surface<S, T, P>>,
    textures: Seq<PixelBuffer>,
    requests: Seq<Request<V>>,
) -> bool {
    forall|k: int|
        0 <= k < requests.len()
            ==> !(outcome_of(surfaces, textures, #[trigger] requests[k]) is Fatal)
}

/// Request `k` is the first of `requests` that is fatal, and `error` is what
/// it fails with.
pub open spec fn halts_at<S, T, P, V>(
    surfaces: Seq<Surface<S, T, P>>,
    textures: Seq<PixelBuffer>,
    requests: Seq<Request<V>>,
    k: int,
    error: MissingBuffer,
) -> bool {
    &&& 0 <= k < requests.len()
    &&& all_survive(surfaces, textures, requests.take(k))
    &&& outcome_of(surfaces, textures, requests[k]) == Resolution::Fatal(error)
}

/// One of `requests` is fatal, the first such request fails with `error`,
/// and `after` is the scene `before` once the requests before that one have
/// been translated.
pub open spec fn halted<S, T, P, V, F: Fn(&WorldUI<S>, &T, &V, u32, u32) -> P>(
    project: F,
    before: Seq<Surface<S, T, P>>,
    textures: Seq<PixelBuffer>,
    requests: Seq<Request<V>>,
    after: Seq<Surface<S, T, P>>,
    error: MissingBuffer,
) -> bool {
    exists|k: int|
        {
            &&& #[trigger] halts_at(before, textures, requests, k, error)
            &&& translated(project, before, textures, requests.take(k), after)
        }
}

/// `after` and `result` are what translating `requests` in order, from the
/// scene `before`, comes to.
///
/// It succeeds if and only if no request is fatal, and then every request
/// has been translated. Otherwise it fails with the error of the first fatal
/// request, and exactly the requests before that one have been translated.
pub open spec fn completed<S, T, P, V, F: Fn(&WorldUI<S>, &T, &V, u32, u32) -> P>(
    project: F,
    before: Seq<Surface<S, T, P>>,
    textures: Seq<PixelBuffer>,
    requests: Seq<Request<V>>,
    after: Seq<Surface<S, T, P>>,
    result: Result<(), MissingBuffer>,
) -> bool {
    match result {
        Ok(_) => {
            &&& all_survive(before, textures, requests)
            &&& translated(project, before, textures, requests, after)
        },
        Err(error) => halted(project, before, textures, requests, after, error),
    }
}

/// Translates the request that follows `done`, in a translation that began
/// in the scene `before` and has come to the scene behind `surfaces`.
fn advance<S, T, P: Copy, V, F: Fn(&WorldUI<S>, &T, &V, u32, u32) -> P>(
    surfaces: &mut Vec<Surface<S, T, P>>,
    textures: &Vec<PixelBuffer>,
    request: &Request<V>,
    project: &F,
    Ghost(before): Ghost<Seq<Surface<S, T, P>>>,
    Ghost(done): Ghost<Seq<Request<V>>>,
    Ghost(pixels): Ghost<Seq<P>>,
) -> (result: Result<Ghost<Seq<P>>, MissingBuffer>)
    requires
        same_surfaces(before, old(surfaces)@),
        witnessed(*project, before, textures@, done, old(surfaces)@, pixels),
        projectable(*project, before, textures@, *request),
    ensures
        same_surfaces(before, final(surfaces)@),
        match result {
            Ok(extended) => {
                &&& !(outcome_of(before, textures@, *request) is Fatal)
                &&& witnessed(
                    *project,
                    before,
                    textures@,
                    done.push(*request),
                    final(surfaces)@,
                    extended@,
                )
            },
            Err(error) => {
                &&& outcome_of(before, textures@, *request) == Resolution::Fatal(error)
                &&& translated(*project, before, textures@, done, final(surfaces)@)
            },
        },
{
    let ghost mid = surfaces@;
    proof {
        lemma_resolution_stable(before, mid, textures@, request.target, request.located());
        if let Resolution::Hit { surface, .. } = outcome_of(before, textures@, *request) {
            assert(mid[surface as int].world_ui == before[surface as int].world_ui);
        }
    }
    let outcome = translate(surfaces, textures, request, project);
    match outcome {
        Ok(found) => {
            let ghost pixel = match found {
                Some(pixel) => pixel,
                None => arbitrary(),
            };
            proof {
                lemma_one_more(
                    *project,
                    before,
                    textures@,
                    done,
                    pixels,
                    mid,
                    surfaces@,
                    *request,
                    pixel,
                );
            }
            Ok(Ghost(pixels.push(pixel)))
        },
        Err(error) => {
            proof {
                lemma_halted(*project, before, textures@, done, mid, surfaces@, pixels);
            }
            Err(error)
        },
    }
}

/// Translating one more request extends the witness by one position.
proof fn lemma_one_more<S, T, P, V, F: Fn(&WorldUI<S>, &T, &V, u32, u32) -> P>(
    project: F,
    before: Seq<Surface<S, T, P>>,
    textures: Seq<PixelBuffer>,
    requests: Seq<Request<V>>,
    pixels: Seq<P>,
    mid: Seq<Surface<S, T, P>>,
    after: Seq<Surface<S, T, P>>,
    request: Request<V>,
    pixel: P,
)
    requires
        same_surfaces(before, mid),
        same_surfaces(mid, after),
        witnessed(project, before, textures, requests, mid, pixels),
        projected(project, mid, textures, request, pixel),
        forall|i: int|
            0 <= i < mid.len() ==> (#[trigger] after[i]).input@
                == mid[i].input@ + appended(mid, textures, request, pixel, i),
    ensures
        same_surfaces(before, after),
        witnessed(project, before, textures, requests.push(request), after, pixels.push(pixel)),
{
    let requests2 = requests.push(request);
    let pixels2 = pixels.push(pixel);
    lemma_resolution_stable(before, mid, textures, request.target, request.located());
    assert(requests2.drop_last() =~= requests);
    assert(pixels2.drop_last() =~= pixels);
    assert forall|k: int| 0 <= k < requests2.len() implies projected(
        project,
        before,
        textures,
        #[trigger] requests2[k],
        pixels2[k],
    ) by {
        if k < requests.len() {
            assert(requests2[k] == requests[k]);
            assert(pixels2[k] == pixels[k]);
        } else {
            if let Resolution::Hit { surface, .. } = outcome_of(before, textures, request) {
                assert(mid[surface as int].world_ui == before[surface as int].world_ui);
            }
        }
    }
    assert forall|i: int| 0 <= i < before.len() implies (#[trigger] after[i]).input@
        == before[i].input@ + queued(before, textures, requests2, pixels2, i) by {
        let earlier = queued(before, textures, requests, pixels, i);
        let last = appended(before, textures, request, pixel, i);
        assert(mid[i].input@ == before[i].input@ + earlier);
        assert(appended(mid, textures, request, pixel, i) == last);
        assert(after[i].input@ =~= before[i].input@ + (earlier + last));
    }
}

/// A request that fails leaves the scene as the requests before it left it.
proof fn lemma_halted<S, T, P, V, F: Fn(&WorldUI<S>, &T, &V, u32, u32) -> P>(
    project: F,
    before: Seq<Surface<S, T, P>>,
    textures: Seq<PixelBuffer>,
    done: Seq<Request<V>>,
    mid: Seq<Surface<S, T, P>>,
    after: Seq<Surface<S, T, P>>,
    pixels: Seq<P>,
)
    requires
        same_surfaces(before, mid),
        same_surfaces(mid, after),
        witnessed(project, before, textures, done, mid, pixels),
        forall|i: int|
            0 <= i < mid.len() ==> (#[trigger] after[i]).input@
                == mid[i].input@ + Seq::<SyntheticEvent<P>>::empty(),
    ensures
        translated(project, before, textures, done, after),
{
    assert forall|i: int| 0 <= i < before.len() implies (#[trigger] after[i]).input@
        == before[i].input@ + queued(before, textures, done, pixels, i) by {
        assert(mid[i].input@ + Seq::<SyntheticEvent<P>>::empty() =~= mid[i].input@);
        assert(mid[i].input@ == before[i].input@ + queued(before, textures, done, pixels, i));
    }
    assert(witnessed(project, before, textures, done, after, pixels));
}

/// Translates every pending pointer interaction: all moves in order of
/// arrival, then all clicks in order of arrival. Both event lists are
/// consumed.
///
/// Each interaction is resolved against the scene. One that addresses no
/// surface, or that carries no hit point or no normal, is dropped. One that
/// hits a surface is projected by `project`, which is handed the surface's
/// extent and transform, the world-space hit point, and the width and
/// height in pixels of the surface's buffer; a move then appends one
/// pointer-moved event to that surface's input queue, a click the primary
/// button going down and up. The position that `project` returns is
/// forwarded as it is.
///
/// An interaction that hits a surface whose pixel buffer is missing halts
/// the translation with the error. The interactions before it have been
/// translated; it and those after it have no effect.
pub fn ui_interactions<S, T, P: Copy, V: Copy, F: Fn(&WorldUI<S>, &T, &V, u32, u32) -> P>(
    surfaces: &mut Vec<Surface<S, T, P>>,
    move_events: Vec<UIPointerMove<V>>,
    click_events: Vec<UIPointerClick<V>>,
    textures: &Vec<PixelBuffer>,
    project: F,
) -> (result: Result<(), MissingBuffer>)
    requires
        forall|k: int|
            0 <= k < pending(move_events@, click_events@).len() ==> projectable(
                project,
                old(surfaces)@,
                textures@,
                #[trigger] pending(move_events@, click_events@)[k],
            ),
    ensures
        completed(
            project,
            old(surfaces)@,
            textures@,
            pending(move_events@, click_events@),
            final(surfaces)@,
            result,
        ),
{
    let ghost before = surfaces@;
    let ghost all = pending(move_events@, click_events@);
    let ghost mut pixels: Seq<P> = Seq::empty();
    proof {
        assert(all.take(0) =~= Seq::<Request<V>>::empty());
        lemma_nothing_appended(before, before);
    }
    let mut n: usize = 0;
    while n < move_events.len()
        invariant
            n <= move_events.len(),
            before == old(surfaces)@,
            all == pending(move_events@, click_events@),
            forall|k: int|
                0 <= k < all.len() ==> projectable(project, before, textures@, #[trigger] all[k]),
            same_surfaces(before, surfaces@),
            all_survive(before, textures@, all.take(n as int)),
            witnessed(project, before, textures@, all.take(n as int), surfaces@, pixels),
        decreases move_events.len() - n,
    {
        let request = move_events[n].to_request();
        assert(request == all[n as int]);
        let outcome = advance(
            surfaces,
            textures,
            &request,
            &project,
            Ghost(before),
            Ghost(all.take(n as int)),
            Ghost(pixels),
        );
        match outcome {
            Ok(extended) => {
                proof {
                    assert(all.take(n as int).push(request) =~= all.take(n + 1));
                    pixels = extended@;
                }
            },
            Err(error) => {
                assert(halts_at(before, textures@, all, n as int, error));
                return Err(error);
            },
        }
        n += 1;
    }
    let mut m: usize = 0;
    while m < click_events.len()
        invariant
            m <= click_events.len(),
            before == old(surfaces)@,
            all == pending(move_events@, click_events@),
            forall|k: int|
                0 <= k < all.len() ==> projectable(project, before, textures@, #[trigger] all[k]),
            same_surfaces(before, surfaces@),
            all_survive(before, textures@, all.take(move_events.len() + m)),
            witnessed(project, before, textures@, all.take(move_events.len() + m), surfaces@, pixels),
        decreases click_events.len() - m,
    {
        let ghost at = move_events.len() + m;
        let request = click_events[m].to_request();
        assert(request == all[at]);
        let outcome = advance(
            surfaces,
            textures,
            &request,
            &project,
            Ghost(before),
            Ghost(all.take(at)),
            Ghost(pixels),
        );
        match outcome {
            Ok(extended) => {
                proof {
                    assert(all.take(at).push(request) =~= all.take(at + 1));
                    pixels = extended@;
                }
            },
            Err(error) => {
                assert(halts_at(before, textures@, all, at, error));
                return Err(error);
            },
        }
        m += 1;
    }
    proof {
        assert(all.take(move_events.len() + click_events.len()) =~= all);
    }
    Ok(())
}

} // verus!
