//! Raw pointer interactions, as the picking backend reports them.

use vstd::prelude::*;

verus! {

/// What the picking backend reports of one pointer interaction: the entity
/// that was addressed and, where the backend could resolve them, the
/// world-space point and surface normal of the hit.
#[derive(Clone, Copy, Debug)]
pub struct PointerHit<V> {
    pub target: u64,
    pub position: Option<V>,
    pub normal: Option<V>,
}

/// The two kinds of pointer interaction that reach a surface.
#[derive(Clone, Copy, Debug, PartialEq, Eq)]
pub enum Interaction {
    Move,
    Click,
}

/// A pointer interaction of either kind: the common shape of
/// [`UIPointerMove`] and [`UIPointerClick`].
#[derive(Clone, Copy, Debug)]
pub struct Request<V> {
    pub kind: Interaction,
    pub target: u64,
    pub position: Option<V>,
    pub normal: Option<V>,
}

impl<V> Request<V> {
    /// The backend resolved a concrete hit: both the point and the normal
    /// are present.
    pub open spec fn located(self) -> bool {
        self.position is Some && self.normal is Some
    }
}

/// The pointer was clicked on `target`.
#[derive(Clone, Copy, Debug)]
pub struct UIPointerClick<V> {
    pub target: u64,
    pub position: Option<V>,
    pub normal: Option<V>,
}

/// The pointer moved over `target`.
#[derive(Clone, Copy, Debug)]
pub struct UIPointerMove<V> {
    pub target: u64,
    pub position: Option<V>,
    pub normal: Option<V>,
}

impl<V> UIPointerClick<V> {
    /// The click as a request.
    pub open spec fn request(self) -> Request<V> {
        Request {
            kind: Interaction::Click,
            target: self.target,
            position: self.position,
            normal: self.normal,
        }
    }
}

impl<V: Copy> UIPointerClick<V> {
    /// The click as a request.
    pub fn to_request(&self) -> (request: Request<V>)
        ensures
            request == self.request(),
    {
        Request {
            kind: Interaction::Click,
            target: self.target,
            position: self.position,
            normal: self.normal,
        }
    }
}

impl<V> UIPointerMove<V> {
    /// The move as a request.
    pub open spec fn request(self) -> Request<V> {
        Request {
            kind: Interaction::Move,
            target: self.target,
            position: self.position,
            normal: self.normal,
        }
    }
}

impl<V: Copy> UIPointerMove<V> {
    /// The move as a request.
    pub fn to_request(&self) -> (request: Request<V>)
        ensures
            request == self.request(),
    {
        Request {
            kind: Interaction::Move,
            target: self.target,
            position: self.position,
            normal: self.normal,
        }
    }
}

impl<V> From<PointerHit<V>> for UIPointerClick<V> {
    fn from(event: PointerHit<V>) -> (click: Self) {
        Self { target: event.target, position: event.position, normal: event.normal }
    }
}

impl<V> vstd::std_specs::convert::FromSpecImpl<PointerHit<V>> for UIPointerClick<V> {
    open spec fn obeys_from_spec() -> bool {
        true
    }

    open spec fn from_spec(event: PointerHit<V>) -> Self {
        UIPointerClick { target: event.target, position: event.position, normal: event.normal }
    }
}

impl<V> From<PointerHit<V>> for UIPointerMove<V> {
    fn from(event: PointerHit<V>) -> (moved: Self) {
        Self { target: event.target, position: event.position, normal: event.normal }
    }
}

impl<V> vstd::std_specs::convert::FromSpecImpl<PointerHit<V>> for UIPointerMove<V> {
    open spec fn obeys_from_spec() -> bool {
        true
    }

    open spec fn from_spec(event: PointerHit<V>) -> Self {
        UIPointerMove { target: event.target, position: event.position, normal: event.normal }
    }
}

/// The pending interactions in the order in which they are translated:
/// every move, in order of arrival, and then every click, in order of
/// arrival.
pub open spec fn pending<V>(
    moves: Seq<UIPointerMove<V>>,
    clicks: Seq<UIPointerClick<V>>,
) -> Seq<Request<V>> {
    Seq::new(
        moves.len() + clicks.len(),
        |k: int| if k < moves.len() { moves[k].request() } else { clicks[k - moves.len()].request() },
    )
}

} // verus!
