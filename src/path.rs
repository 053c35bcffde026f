//! Depth-limited control of one light path. A path is traced bounce by
//! bounce: each bounce either misses the scene (the sky is seen), is absorbed
//! by a surface (the path is black), or scatters into a new ray whose colour
//! is tinted by the surface. When the depth runs out the path is black.
use vstd::prelude::*;

verus! {

/// What one traced ray met.
#[derive(Clone, Copy, Debug, PartialEq, Eq, Structural)]
pub enum Event {
    Missed,
    Absorbed,
    Scattered,
}

/// How a path's colour is finished: black, or the sky gradient seen by the
/// last ray, tinted by every attenuation met on the way.
#[derive(Clone, Copy, Debug, PartialEq, Eq, Structural)]
pub enum Ending {
    Black,
    Sky,
}

/// The ending of a path with `depth` bounces allowed that has met `events`
/// so far, or `None` while it goes on.
pub open spec fn ending_of(depth: nat, events: Seq<Event>) -> Option<Ending>
    decreases events.len(),
{
    if depth == 0 {
        Some(Ending::Black)
    } else if events.len() == 0 {
        None
    } else {
        match events[0] {
            Event::Missed => Some(Ending::Sky),
            Event::Absorbed => Some(Ending::Black),
            Event::Scattered => ending_of((depth - 1) as nat, events.drop_first()),
        }
    }
}

/// Every event of `events` is a scatter.
pub open spec fn all_scattered(events: Seq<Event>) -> bool {
    forall|i: int| 0 <= i < events.len() ==> #[trigger] events[i] == Event::Scattered
}

/// A path that has only scattered, and stays within its depth, goes on as a
/// path with that many fewer bounces left.
proof fn lemma_scattered_prefix(depth: nat, events: Seq<Event>, e: Event)
    requires
        all_scattered(events),
        events.len() < depth,
    ensures
        ending_of(depth, events) is None,
        ending_of(depth, events.push(e)) == ending_of(
            (depth - events.len()) as nat,
            seq![e],
        ),
    decreases events.len(),
{
    if events.len() > 0 {
        assert(events.push(e).drop_first() =~= events.drop_first().push(e));
        assert(events[0] == Event::Scattered);
        assert forall|i: int| 0 <= i < events.drop_first().len() implies #[trigger] events.drop_first()[i]
            == Event::Scattered by {
            assert(events.drop_first()[i] == events[i + 1]);
        }
        lemma_scattered_prefix((depth - 1) as nat, events.drop_first(), e);
    } else {
        assert(events.push(e) =~= seq![e]);
    }
}

/// A path allowed no bounce is black, whatever it would meet.
pub proof fn lemma_zero_depth_is_black(events: Seq<Event>)
    ensures
        ending_of(0, events) == Some(Ending::Black),
{
}

/// A path whose first ray misses every object shows the sky, untinted, as
/// long as one bounce is allowed.
pub proof fn lemma_first_miss_is_sky(depth: nat, events: Seq<Event>)
    requires
        depth > 0,
        events.len() > 0,
        events[0] == Event::Missed,
    ensures
        ending_of(depth, events) == Some(Ending::Sky),
{
}

/// A path never traces more rays than its depth: after `depth` events it has
/// ended, whatever they were.
pub proof fn lemma_ends_within_depth(depth: nat, events: Seq<Event>)
    requires
        events.len() >= depth,
    ensures
        ending_of(depth, events) is Some,
    decreases events.len(),
{
    if depth > 0 && events[0] == Event::Scattered {
        lemma_ends_within_depth((depth - 1) as nat, events.drop_first());
    }
}

/// The control state of one light path.
pub struct PathState {
    remaining: u8,
    ending: Option<Ending>,
    depth: Ghost<nat>,
    events: Ghost<Seq<Event>>,
}

impl PathState {
    /// The number of bounces the path was allowed.
    pub closed spec fn depth(&self) -> nat {
        self.depth@
    }

    /// What the path has met so far, in order.
    pub closed spec fn events(&self) -> Seq<Event> {
        self.events@
    }

    pub closed spec fn wf(&self) -> bool {
        &&& self.ending == ending_of(self.depth@, self.events@)
        &&& self.ending is None ==> {
            &&& all_scattered(self.events@)
            &&& self.events@.len() < self.depth@
            &&& self.remaining as nat == self.depth@ - self.events@.len()
        }
    }

    /// A new path that may bounce `depth` times. With no bounce allowed it is
    /// black at once.
    pub fn new(depth: u8) -> (r: PathState)
        ensures
            r.wf(),
            r.depth() == depth as nat,
            r.events() == Seq::<Event>::empty(),
            ending_of(r.depth(), r.events()) == (if depth == 0 {
                Some(Ending::Black)
            } else {
                None
            }),
    {
        let ending = if depth == 0 {
            Some(Ending::Black)
        } else {
            None
        };
        PathState {
            remaining: depth,
            ending,
            depth: Ghost(depth as nat),
            events: Ghost(Seq::empty()),
        }
    }

    /// How the path ends, or `None` while another ray must be traced.
    pub fn ending(&self) -> (r: Option<Ending>)
        requires
            self.wf(),
        ensures
            r == ending_of(self.depth(), self.events()),
    {
        self.ending
    }

    /// Records what the path's current ray met.
    pub fn record(&mut self, event: Event)
        requires
            old(self).wf(),
            ending_of(old(self).depth(), old(self).events()) is None,
        ensures
            final(self).wf(),
            final(self).depth() == old(self).depth(),
            final(self).events() == old(self).events().push(event),
            ending_of(final(self).depth(), final(self).events()) == match event {
                Event::Missed => Some(Ending::Sky),
                Event::Absorbed => Some(Ending::Black),
                Event::Scattered => if old(self).events().len() + 1 == old(self).depth() {
                    Some(Ending::Black)
                } else {
                    None
                },
            },
    {
        proof {
            lemma_scattered_prefix(self.depth@, self.events@, event);
            let rest = (self.depth@ - self.events@.len()) as nat;
            assert(seq![event].drop_first() =~= Seq::<Event>::empty());
            assert(ending_of(rest, seq![event]) == match event {
                Event::Missed => Some(Ending::Sky),
                Event::Absorbed => Some(Ending::Black),
                Event::Scattered => ending_of((rest - 1) as nat, Seq::<Event>::empty()),
            });
        }
        match event {
            Event::Missed => {
                self.ending = Some(Ending::Sky);
            },
            Event::Absorbed => {
                self.ending = Some(Ending::Black);
            },
            Event::Scattered => {
                self.remaining = self.remaining - 1;
                if self.remaining == 0 {
                    self.ending = Some(Ending::Black);
                }
            },
        }
        self.events = Ghost(self.events@.push(event));
        proof {
            if self.ending is None {
                assert forall|i: int| 0 <= i < self.events@.len() implies #[trigger] self.events@[i]
                    == Event::Scattered by {
                    if i < self.events@.len() - 1 {
                        assert(self.events@[i] == old(self).events@[i]);
                    }
                }
            }
        }
    }
}

} // verus!
