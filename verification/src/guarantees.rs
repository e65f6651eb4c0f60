//! What holds of every translation, whatever the scene and the projection.

use vstd::prelude::*;
use crate::input::{synthesized, SyntheticEvent};
use crate::pointer::{pending, Interaction, Request, UIPointerClick, UIPointerMove};
use crate::resolve::{outcome_of, MissingBuffer, Resolution};
use crate::surface::{
    is_buffer_of, is_surface_of, lemma_surface_of, same_surfaces, PixelBuffer, Surface, WorldUI,
};
use crate::translate::{
    all_survive, appended, completed, halts_at, projected, queued, translated, witnessed,
};

verus! {

/// No input queue of `after` differs from the queue in the same place of
/// `before`.
pub open spec fn queues_unchanged<S, T, P>(
    before: Seq<Surface<S, T, P>>,
    after: Seq<Surface<S, T, P>>,
) -> bool {
    forall|i: int| 0 <= i < before.len() ==> (#[trigger] after[i]).input@ == before[i].input@
}

/// No input queue of `after` but the one at place `surface` differs from the
/// queue in the same place of `before`.
pub open spec fn other_queues_unchanged<S, T, P>(
    before: Seq<Surface<S, T, P>>,
    after: Seq<Surface<S, T, P>>,
    surface: int,
) -> bool {
    forall|i: int|
        0 <= i < before.len() && i != surface ==> (#[trigger] after[i]).input@ == before[i].input@
}

/// What one request alone comes to, by what becomes of it.
proof fn lemma_single<S, T, P, V, F: Fn(&WorldUI<S>, &T, &V, u32, u32) -> P>(
    project: F,
    before: Seq<Surface<S, T, P>>,
    textures: Seq<PixelBuffer>,
    request: Request<V>,
    after: Seq<Surface<S, T, P>>,
    result: Result<(), MissingBuffer>,
) -> (pixel: P)
    requires
        completed(project, before, textures, seq![request], after, result),
    ensures
        same_surfaces(before, after),
        match outcome_of(before, textures, request) {
            Resolution::Skip => result is Ok && queues_unchanged(before, after),
            Resolution::Fatal(error) => result == Err::<(), MissingBuffer>(error)
                && queues_unchanged(before, after),
            Resolution::Hit { .. } => result is Ok
                && projected(project, before, textures, request, pixel),
        },
        result is Ok ==> forall|i: int|
            0 <= i < before.len() ==> (#[trigger] after[i]).input@
                == before[i].input@ + appended(before, textures, request, pixel, i),
{
    let requests = seq![request];
    assert(requests[0] == request);
    match result {
        Ok(_) => {
            let pixels = choose|pixels: Seq<P>|
                witnessed(project, before, textures, requests, after, pixels);
            assert(requests.drop_last() =~= Seq::<Request<V>>::empty());
            assert(requests.last() == request);
            assert forall|i: int| 0 <= i < before.len() implies (#[trigger] after[i]).input@
                == before[i].input@ + appended(before, textures, request, pixels[0], i) by {
                let nothing = queued(
                    before,
                    textures,
                    requests.drop_last(),
                    pixels.drop_last(),
                    i,
                );
                let events = appended(before, textures, request, pixels[0], i);
                assert(nothing =~= Seq::<SyntheticEvent<P>>::empty());
                assert(queued(before, textures, requests, pixels, i) == nothing + events);
                assert(nothing + events =~= events);
            }
            assert forall|i: int| 0 <= i < before.len() && !(outcome_of(
                before,
                textures,
                request,
            ) is Hit) implies (#[trigger] after[i]).input@ == before[i].input@ by {
                assert(before[i].input@ + Seq::<SyntheticEvent<P>>::empty() =~= before[i].input@);
            }
            pixels[0]
        },
        Err(error) => {
            let k = choose|k: int|
                #![trigger halts_at(before, textures, requests, k, error)]
                halts_at(before, textures, requests, k, error) && translated(
                    project,
                    before,
                    textures,
                    requests.take(k),
                    after,
                );
            assert(k == 0);
            let pixels = choose|pixels: Seq<P>|
                witnessed(project, before, textures, requests.take(0), after, pixels);
            assert forall|i: int| 0 <= i < before.len() implies (#[trigger] after[i]).input@
                == before[i].input@ by {
                assert(queued(before, textures, requests.take(0), pixels, i)
                    =~= Seq::<SyntheticEvent<P>>::empty());
                assert(before[i].input@ + Seq::<SyntheticEvent<P>>::empty() =~= before[i].input@);
            }
            arbitrary()
        },
    }
}

/// A click alone, on a surface whose pixel buffer is live, succeeds and
/// appends exactly two events to the queue of that surface: the primary
/// button going down and then up, with no modifier key held, both at one
/// position, which is what the projection returned for the hit. The two
/// stand next to each other at the end of the queue, and no other queue
/// changes.
pub proof fn click_yields_press_then_release<
    S,
    T,
    P,
    V,
    F: Fn(&WorldUI<S>, &T, &V, u32, u32) -> P,
>(
    project: F,
    before: Seq<Surface<S, T, P>>,
    textures: Seq<PixelBuffer>,
    click: UIPointerClick<V>,
    after: Seq<Surface<S, T, P>>,
    result: Result<(), MissingBuffer>,
    surface: int,
)
    requires
        before.len() <= usize::MAX,
        outcome_of(before, textures, click.request()) is Hit,
        outcome_of(before, textures, click.request())->surface == surface,
        completed(project, before, textures, pending(Seq::empty(), seq![click]), after, result),
    ensures
        result is Ok,
        same_surfaces(before, after),
        other_queues_unchanged(before, after, surface),
        ({
            let old_queue = before[surface].input@;
            let new_queue = after[surface].input@;
            let n = old_queue.len() as int;
            let pos = new_queue[n].pos_spec();
            &&& new_queue.len() == n + 2
            &&& new_queue.take(n) == old_queue
            &&& new_queue[n] == SyntheticEvent::primary_spec(pos, true)
            &&& new_queue[n + 1] == SyntheticEvent::primary_spec(pos, false)
            &&& projected(project, before, textures, click.request(), pos)
        }),
{
    let request = click.request();
    assert(pending(Seq::<UIPointerMove<V>>::empty(), seq![click]) =~= seq![request]);
    let pixel = lemma_single(project, before, textures, request, after, result);
    lemma_surface_in_scene(before, textures, request);
    let old_queue = before[surface].input@;
    assert(after[surface].input@ == old_queue + synthesized(Interaction::Click, pixel));
    assert(after[surface].input@.take(old_queue.len() as int) =~= old_queue);
    assert forall|i: int| 0 <= i < before.len() && i != surface implies (#[trigger] after[i]).input@
        == before[i].input@ by {
        assert(before[i].input@ + Seq::<SyntheticEvent<P>>::empty() =~= before[i].input@);
    }
}

/// A move alone, over a surface whose pixel buffer is live, succeeds and
/// appends exactly one event to the queue of that surface: the pointer moved
/// to the position that the projection returned for the hit. No other queue
/// changes.
pub proof fn move_yields_one_event<S, T, P, V, F: Fn(&WorldUI<S>, &T, &V, u32, u32) -> P>(
    project: F,
    before: Seq<Surface<S, T, P>>,
    textures: Seq<PixelBuffer>,
    moved: UIPointerMove<V>,
    after: Seq<Surface<S, T, P>>,
    result: Result<(), MissingBuffer>,
    surface: int,
)
    requires
        before.len() <= usize::MAX,
        outcome_of(before, textures, moved.request()) is Hit,
        outcome_of(before, textures, moved.request())->surface == surface,
        completed(project, before, textures, pending(seq![moved], Seq::empty()), after, result),
    ensures
        result is Ok,
        same_surfaces(before, after),
        other_queues_unchanged(before, after, surface),
        ({
            let old_queue = before[surface].input@;
            let new_queue = after[surface].input@;
            let n = old_queue.len() as int;
            let pos = new_queue[n].pos_spec();
            &&& new_queue.len() == n + 1
            &&& new_queue.take(n) == old_queue
            &&& new_queue[n] == (SyntheticEvent::PointerMoved { pos })
            &&& projected(project, before, textures, moved.request(), pos)
        }),
{
    let request = moved.request();
    assert(pending(seq![moved], Seq::<UIPointerClick<V>>::empty()) =~= seq![request]);
    let pixel = lemma_single(project, before, textures, request, after, result);
    lemma_surface_in_scene(before, textures, request);
    let old_queue = before[surface].input@;
    assert(after[surface].input@ == old_queue + synthesized(Interaction::Move, pixel));
    assert(after[surface].input@.take(old_queue.len() as int) =~= old_queue);
    assert forall|i: int| 0 <= i < before.len() && i != surface implies (#[trigger] after[i]).input@
        == before[i].input@ by {
        assert(before[i].input@ + Seq::<SyntheticEvent<P>>::empty() =~= before[i].input@);
    }
}

/// The surface that a request hits is a surface of the scene.
proof fn lemma_surface_in_scene<S, T, P, V>(
    surfaces: Seq<Surface<S, T, P>>,
    textures: Seq<PixelBuffer>,
    request: Request<V>,
)
    requires
        surfaces.len() <= usize::MAX,
        outcome_of(surfaces, textures, request) is Hit,
    ensures
        0 <= outcome_of(surfaces, textures, request)->surface < surfaces.len(),
        is_surface_of(
            surfaces,
            request.target,
            outcome_of(surfaces, textures, request)->surface as int,
        ),
{
}

/// An interaction without a hit point, or without a normal, is dropped,
/// whatever it addresses: alone, it succeeds and leaves every queue as it
/// was.
pub proof fn unlocated_yields_nothing<S, T, P, V, F: Fn(&WorldUI<S>, &T, &V, u32, u32) -> P>(
    project: F,
    before: Seq<Surface<S, T, P>>,
    textures: Seq<PixelBuffer>,
    request: Request<V>,
    after: Seq<Surface<S, T, P>>,
    result: Result<(), MissingBuffer>,
)
    requires
        request.position is None || request.normal is None,
        completed(project, before, textures, seq![request], after, result),
    ensures
        outcome_of(before, textures, request) == Resolution::Skip,
        result is Ok,
        same_surfaces(before, after),
        queues_unchanged(before, after),
{
    lemma_single(project, before, textures, request, after, result);
}

/// An interaction that addresses an entity which is no surface of the scene
/// is dropped: alone, it succeeds and leaves every queue as it was.
pub proof fn stale_target_yields_nothing<
    S,
    T,
    P,
    V,
    F: Fn(&WorldUI<S>, &T, &V, u32, u32) -> P,
>(
    project: F,
    before: Seq<Surface<S, T, P>>,
    textures: Seq<PixelBuffer>,
    request: Request<V>,
    after: Seq<Surface<S, T, P>>,
    result: Result<(), MissingBuffer>,
)
    requires
        forall|j: int| 0 <= j < before.len() ==> (#[trigger] before[j]).entity != request.target,
        completed(project, before, textures, seq![request], after, result),
    ensures
        outcome_of(before, textures, request) == Resolution::Skip,
        result is Ok,
        same_surfaces(before, after),
        queues_unchanged(before, after),
{
    assert forall|i: int| !is_surface_of(before, request.target, i) by {
        if 0 <= i < before.len() {
            assert(before[i].entity != request.target);
        }
    }
    lemma_single(project, before, textures, request, after, result);
}

/// An interaction that carries a hit and addresses a surface whose texture
/// handle resolves to no pixel buffer is fatal: alone, it fails with the
/// surface and the handle, and leaves every queue as it was. No event is
/// made up for it.
pub proof fn missing_buffer_is_fatal<S, T, P, V, F: Fn(&WorldUI<S>, &T, &V, u32, u32) -> P>(
    project: F,
    before: Seq<Surface<S, T, P>>,
    textures: Seq<PixelBuffer>,
    request: Request<V>,
    after: Seq<Surface<S, T, P>>,
    result: Result<(), MissingBuffer>,
    surface: int,
)
    requires
        is_surface_of(before, request.target, surface),
        request.position is Some && request.normal is Some,
        forall|j: int|
            0 <= j < textures.len() ==> (#[trigger] textures[j]).handle != before[surface].texture,
        completed(project, before, textures, seq![request], after, result),
    ensures
        result == Err::<(), MissingBuffer>(
            MissingBuffer { entity: request.target, texture: before[surface].texture },
        ),
        same_surfaces(before, after),
        queues_unchanged(before, after),
{
    lemma_surface_of(before, request.target, surface);
    assert forall|i: int| !is_buffer_of(textures, before[surface].texture, i) by {
        if 0 <= i < textures.len() {
            assert(textures[i].handle != before[surface].texture);
        }
    }
    lemma_single(project, before, textures, request, after, result);
}

/// A cycle without pending interactions does nothing: it succeeds and
/// leaves every queue as it was.
pub proof fn idle_cycle_changes_nothing<
    S,
    T,
    P,
    V,
    F: Fn(&WorldUI<S>, &T, &V, u32, u32) -> P,
>(
    project: F,
    before: Seq<Surface<S, T, P>>,
    textures: Seq<PixelBuffer>,
    after: Seq<Surface<S, T, P>>,
    result: Result<(), MissingBuffer>,
)
    requires
        completed(
            project,
            before,
            textures,
            pending(Seq::<UIPointerMove<V>>::empty(), Seq::<UIPointerClick<V>>::empty()),
            after,
            result,
        ),
    ensures
        result is Ok,
        same_surfaces(before, after),
        queues_unchanged(before, after),
{
    let none = pending(Seq::<UIPointerMove<V>>::empty(), Seq::<UIPointerClick<V>>::empty());
    assert(none.len() == 0);
    match result {
        Ok(_) => {
            let pixels = choose|pixels: Seq<P>|
                witnessed(project, before, textures, none, after, pixels);
            assert forall|i: int| 0 <= i < before.len() implies (#[trigger] after[i]).input@
                == before[i].input@ by {
                assert(before[i].input@ + Seq::<SyntheticEvent<P>>::empty() =~= before[i].input@);
            }
        },
        Err(error) => {
            let k = choose|k: int|
                #![trigger halts_at(before, textures, none, k, error)]
                halts_at(before, textures, none, k, error) && translated(
                    project,
                    before,
                    textures,
                    none.take(k),
                    after,
                );
            assert(false);
        },
    }
}

/// No interaction reaches more than one surface: if it appends anything to
/// two queues, the two are one and the same.
pub proof fn request_reaches_one_queue<S, T, P, V>(
    surfaces: Seq<Surface<S, T, P>>,
    textures: Seq<PixelBuffer>,
    request: Request<V>,
    pixel: P,
    i: int,
    j: int,
)
    requires
        appended(surfaces, textures, request, pixel, i).len() > 0,
        appended(surfaces, textures, request, pixel, j).len() > 0,
    ensures
        i == j,
        outcome_of(surfaces, textures, request) is Hit,
        outcome_of(surfaces, textures, request)->surface == i,
{
}

/// A translation succeeds if and only if none of its requests is fatal.
pub proof fn success_iff_nothing_fatal<
    S,
    T,
    P,
    V,
    F: Fn(&WorldUI<S>, &T, &V, u32, u32) -> P,
>(
    project: F,
    before: Seq<Surface<S, T, P>>,
    textures: Seq<PixelBuffer>,
    requests: Seq<Request<V>>,
    after: Seq<Surface<S, T, P>>,
    result: Result<(), MissingBuffer>,
)
    requires
        completed(project, before, textures, requests, after, result),
    ensures
        result is Ok <==> all_survive(before, textures, requests),
{
    if let Err(error) = result {
        let k = choose|k: int|
            #![trigger halts_at(before, textures, requests, k, error)]
            halts_at(before, textures, requests, k, error) && translated(
                project,
                before,
                textures,
                requests.take(k),
                after,
            );
        assert(outcome_of(before, textures, requests[k]) is Fatal);
    }
}

/// Queues fill in the order of the requests: what two runs of requests
/// append to a queue, one after the other, is what the first run appends
/// followed by what the second appends. So the events of a request stand
/// behind those of every earlier request and before those of every later
/// one, and the two events of a click are never parted.
pub proof fn queue_follows_request_order<S, T, P, V>(
    surfaces: Seq<Surface<S, T, P>>,
    textures: Seq<PixelBuffer>,
    first: Seq<Request<V>>,
    first_pixels: Seq<P>,
    second: Seq<Request<V>>,
    second_pixels: Seq<P>,
    i: int,
)
    requires
        first_pixels.len() == first.len(),
        second_pixels.len() == second.len(),
    ensures
        queued(surfaces, textures, first + second, first_pixels + second_pixels, i) == queued(
            surfaces,
            textures,
            first,
            first_pixels,
            i,
        ) + queued(surfaces, textures, second, second_pixels, i),
    decreases second.len(),
{
    let head = queued(surfaces, textures, first, first_pixels, i);
    if second.len() == 0 {
        assert(first + second =~= first);
        assert(first_pixels + second_pixels =~= first_pixels);
        assert(head + Seq::<SyntheticEvent<P>>::empty() =~= head);
    } else {
        let all = first + second;
        let all_pixels = first_pixels + second_pixels;
        assert(all.drop_last() =~= first + second.drop_last());
        assert(all_pixels.drop_last() =~= first_pixels + second_pixels.drop_last());
        assert(all.last() == second.last());
        assert(all_pixels.last() == second_pixels.last());
        queue_follows_request_order(
            surfaces,
            textures,
            first,
            first_pixels,
            second.drop_last(),
            second_pixels.drop_last(),
            i,
        );
        let middle = queued(surfaces, textures, second.drop_last(), second_pixels.drop_last(), i);
        let tail = appended(surfaces, textures, second.last(), second_pixels.last(), i);
        assert((head + middle) + tail =~= head + (middle + tail));
    }
}

} // verus!
