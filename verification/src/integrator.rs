//! The bounce budget of one traced path.
//!
//! The radiance of a ray is defined by recursion: black once the depth has
//! reached the limit; else the sky where the ray misses the scene, black
//! where the surface absorbs it, and the attenuation times the radiance of
//! the scattered ray, one level deeper, where it scatters. So a path is a
//! run of bounces closed by an ending, and its radiance is the product of
//! the attenuations gathered on the way times the colour of that ending.
//! [`Path`] walks that recursion as a loop.
use vstd::prelude::*;

verus! {

/// What a ray met.
#[derive(Clone, Copy, Debug, PartialEq, Eq, Structural)]
pub enum Encounter {
    /// No sphere is hit.
    Miss,
    /// A sphere is hit and its surface takes the ray.
    Absorbed,
    /// A sphere is hit and its surface sends a new ray on.
    Scattered,
}

/// The colour that closes a path.
#[derive(Clone, Copy, Debug, PartialEq, Eq, Structural)]
pub enum Ending {
    /// The gradient of the sky in the direction of the last ray.
    Sky,
    /// No light at all.
    Black,
}

/// What to do after an encounter.
#[derive(Clone, Copy, Debug, PartialEq, Eq, Structural)]
pub enum Step {
    /// Multiply the attenuation in and trace the scattered ray.
    Bounce,
    /// Stop: the path is closed by this ending.
    Done(Ending),
}

/// A whole path: how many attenuations it gathers and how it is closed.
pub struct Outcome {
    pub bounces: nat,
    pub ending: Ending,
}

/// The outcome, by the recursion, of a path that stands at `depth` under
/// `limit`, where the ray at depth `k` meets `meets(k)`.
pub open spec fn outcome_from(limit: nat, depth: nat, meets: spec_fn(nat) -> Encounter) -> Outcome
    decreases limit - depth,
{
    if depth >= limit {
        Outcome { bounces: depth, ending: Ending::Black }
    } else {
        match meets(depth) {
            Encounter::Miss => Outcome { bounces: depth, ending: Ending::Sky },
            Encounter::Absorbed => Outcome { bounces: depth, ending: Ending::Black },
            Encounter::Scattered => outcome_from(limit, depth + 1, meets),
        }
    }
}

/// The state of a path: its depth, which never passes its limit.
#[derive(Clone, Copy, Debug)]
pub struct Path {
    limit: usize,
    depth: usize,
}

impl Path {
    #[verifier::type_invariant]
    spec fn bounded(self) -> bool {
        self.depth <= self.limit
    }

    /// The depth at which the path turns black.
    pub closed spec fn spec_limit(self) -> nat {
        self.limit as nat
    }

    /// The bounces made so far.
    pub closed spec fn spec_depth(self) -> nat {
        self.depth as nat
    }

    /// The depth has reached the limit.
    pub open spec fn spec_exhausted(&self) -> bool {
        self.spec_depth() >= self.spec_limit()
    }

    /// What the path does on `met`, and the depth it has afterwards.
    pub open spec fn spec_advance(self, met: Encounter) -> (Step, nat) {
        if self.spec_exhausted() {
            (Step::Done(Ending::Black), self.spec_depth())
        } else {
            match met {
                Encounter::Miss => (Step::Done(Ending::Sky), self.spec_depth()),
                Encounter::Absorbed => (Step::Done(Ending::Black), self.spec_depth()),
                Encounter::Scattered => (Step::Bounce, self.spec_depth() + 1),
            }
        }
    }

    /// A path at depth zero that turns black at depth `max_depth`.
    pub fn new(max_depth: usize) -> (path: Path)
        ensures
            path.spec_limit() == max_depth,
            path.spec_depth() == 0,
    {
        Path { limit: max_depth, depth: 0 }
    }

    /// The depth at which the path turns black.
    pub fn limit(&self) -> (n: usize)
        ensures
            n == self.spec_limit(),
    {
        self.limit
    }

    /// The bounces made so far.
    pub fn depth(&self) -> (n: usize)
        ensures
            n == self.spec_depth(),
            n <= self.spec_limit(),
    {
        proof {
            use_type_invariant(self);
        }
        self.depth
    }

    /// Whether the depth has reached the limit. An exhausted path is black
    /// whatever its ray would meet, so the scene need not be asked.
    #[verifier::when_used_as_spec(spec_exhausted)]
    pub fn exhausted(&self) -> (r: bool)
        ensures
            r == self.spec_exhausted(),
    {
        self.depth >= self.limit
    }

    /// Takes what the current ray met and says how the path goes on. The
    /// limit stays; the depth grows by one on a bounce and stays otherwise.
    pub fn advance(&mut self, met: Encounter) -> (step: Step)
        ensures
            final(self).spec_limit() == old(self).spec_limit(),
            (step, final(self).spec_depth()) == old(self).spec_advance(met),
            final(self).spec_depth() <= final(self).spec_limit(),
    {
        proof {
            use_type_invariant(&*self);
        }
        if self.depth >= self.limit {
            Step::Done(Ending::Black)
        } else {
            match met {
                Encounter::Miss => Step::Done(Ending::Sky),
                Encounter::Absorbed => Step::Done(Ending::Black),
                Encounter::Scattered => {
                    self.depth = self.depth + 1;
                    Step::Bounce
                },
            }
        }
    }
}

/// With a limit of zero a path is black and gathers nothing, whatever the
/// scene holds.
pub proof fn lemma_depth_zero_is_black(meets: spec_fn(nat) -> Encounter)
    ensures
        outcome_from(0, 0, meets) == (Outcome { bounces: 0, ending: Ending::Black }),
{
}

/// One step of [`Path::advance`] is one unfolding of the recursion: where it
/// is done, the path's outcome is its depth and that ending; where it
/// bounces, the outcome is that of the path one level deeper.
pub proof fn lemma_advance_follows_recursion(path: Path, meets: spec_fn(nat) -> Encounter)
    ensures
        outcome_from(path.spec_limit(), path.spec_depth(), meets) == match path.spec_advance(
            meets(path.spec_depth()),
        ) {
            (Step::Done(ending), depth) => Outcome { bounces: depth, ending },
            (Step::Bounce, depth) => outcome_from(path.spec_limit(), depth, meets),
        },
{
}

/// No path gathers more attenuations than its limit allows, so tracing
/// always ends.
pub proof fn lemma_bounces_bounded(limit: nat, depth: nat, meets: spec_fn(nat) -> Encounter)
    requires
        depth <= limit,
    ensures
        depth <= outcome_from(limit, depth, meets).bounces <= limit,
    decreases limit - depth,
{
    if depth < limit && meets(depth) == Encounter::Scattered {
        lemma_bounces_bounded(limit, depth + 1, meets);
    }
}

/// A path ends in the sky exactly where a ray below the limit misses the
/// scene; every other path is black.
pub proof fn lemma_sky_needs_a_miss(limit: nat, depth: nat, meets: spec_fn(nat) -> Encounter)
    requires
        depth <= limit,
    ensures
        ({
            let o = outcome_from(limit, depth, meets);
            o.ending == Ending::Sky <==> o.bounces < limit && meets(o.bounces) == Encounter::Miss
        }),
        forall|k: nat|
            depth <= k < outcome_from(limit, depth, meets).bounces ==> #[trigger] meets(k)
                == Encounter::Scattered,
    decreases limit - depth,
{
    if depth < limit && meets(depth) == Encounter::Scattered {
        lemma_sky_needs_a_miss(limit, depth + 1, meets);
    }
}

} // verus!
