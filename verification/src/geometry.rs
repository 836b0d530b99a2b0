//! Which point of a sphere a ray hits, and which sphere of a scene it hits
//! first.
//!
//! A ray meets a sphere where `|origin + t * direction - center|^2` equals
//! `radius^2`, a quadratic in the ray parameter `t`. Solving it is
//! arithmetic and happens elsewhere; what is decided here is which of the
//! two roots, if any, counts, and over a whole scene which sphere is seen.
use vstd::prelude::*;
use crate::scalar::Scalar;

verus! {

/// The solved quadratic of one ray against one sphere: the discriminant
/// `b^2 - a*c` and the two roots `(-b - sqrt(disc)) / a` and
/// `(-b + sqrt(disc)) / a`. The roots mean something only where the
/// discriminant is positive.
#[derive(Clone, Copy, Debug)]
pub struct Crossing {
    pub discriminant: Scalar,
    pub near: Scalar,
    pub far: Scalar,
}

/// The sphere that a ray hits, by its place in the scene, and the ray
/// parameter of the hit.
#[derive(Clone, Copy, Debug)]
pub struct Hit {
    pub index: usize,
    pub t: Scalar,
}

/// `t` lies strictly inside `(t_min, t_max)`.
pub open spec fn within(t: Scalar, t_min: Scalar, t_max: Scalar) -> bool {
    t.spec_lt(t_max) && t.spec_gt(t_min)
}

/// `t` lies strictly inside `(t_min, t_max)`.
#[verifier::when_used_as_spec(within)]
pub fn is_within(t: Scalar, t_min: Scalar, t_max: Scalar) -> (r: bool)
    ensures
        r == within(t, t_min, t_max),
{
    t.lt(t_max) && t.gt(t_min)
}

impl Crossing {
    /// The far root is not below the near one. Roots computed by the
    /// formulas above from a squared length `a` are always so.
    pub open spec fn ordered(self) -> bool {
        !self.far.spec_lt(self.near)
    }

    /// The root that counts as the hit within `(t_min, t_max)`: none unless
    /// the discriminant is positive; then the near root if it lies inside,
    /// else the far root if that one does.
    pub open spec fn spec_root(self, t_min: Scalar, t_max: Scalar) -> Option<Scalar> {
        if !self.discriminant.spec_gt(Scalar { bits: 0 }) {
            None
        } else if within(self.near, t_min, t_max) {
            Some(self.near)
        } else if within(self.far, t_min, t_max) {
            Some(self.far)
        } else {
            None
        }
    }

    /// The root that counts as the hit within `(t_min, t_max)`.
    #[verifier::when_used_as_spec(spec_root)]
    pub fn root(self, t_min: Scalar, t_max: Scalar) -> (r: Option<Scalar>)
        ensures
            r == self.spec_root(t_min, t_max),
    {
        if !self.discriminant.gt(Scalar::zero()) {
            None
        } else if is_within(self.near, t_min, t_max) {
            Some(self.near)
        } else if is_within(self.far, t_min, t_max) {
            Some(self.far)
        } else {
            None
        }
    }
}

/// Every crossing of the scene has its roots in order.
pub open spec fn all_ordered(crossings: Seq<Crossing>) -> bool {
    forall|i: int| 0 <= i < crossings.len() ==> (#[trigger] crossings[i]).ordered()
}

/// The far bound that the next sphere is tested against: the closest hit so
/// far, or `t_max` while there is none.
pub open spec fn bound_after(found: Option<Hit>, t_max: Scalar) -> Scalar {
    match found {
        Some(h) => h.t,
        None => t_max,
    }
}

/// The hit kept after the spheres have been tested one after the other,
/// each against the bound that the spheres before it left.
pub open spec fn scan(crossings: Seq<Crossing>, t_min: Scalar, t_max: Scalar) -> Option<Hit>
    decreases crossings.len(),
{
    if crossings.len() == 0 {
        None
    } else {
        let before = scan(crossings.drop_last(), t_min, t_max);
        match crossings.last().spec_root(t_min, bound_after(before, t_max)) {
            Some(t) => Some(Hit { index: (crossings.len() - 1) as usize, t }),
            None => before,
        }
    }
}

/// `hit` is what a ray sees first among `crossings` within `(t_min, t_max)`:
/// nothing where no sphere offers a root; else the first of the spheres whose
/// root is the least.
pub open spec fn is_nearest(
    hit: Option<Hit>,
    crossings: Seq<Crossing>,
    t_min: Scalar,
    t_max: Scalar,
) -> bool {
    match hit {
        None => forall|i: int|
            0 <= i < crossings.len() ==> (#[trigger] crossings[i]).spec_root(t_min, t_max) is None,
        Some(h) => {
            &&& h.index < crossings.len()
            &&& crossings[h.index as int].spec_root(t_min, t_max) == Some(h.t)
            &&& forall|i: int|
                0 <= i < crossings.len() ==> match (#[trigger] crossings[i]).spec_root(
                    t_min,
                    t_max,
                ) {
                    Some(t) => !t.spec_lt(h.t),
                    None => true,
                }
            &&& forall|i: int|
                0 <= i < h.index ==> match (#[trigger] crossings[i]).spec_root(t_min, t_max) {
                    Some(t) => h.t.spec_lt(t),
                    None => true,
                }
        },
    }
}

/// The nearest hit of a ray in a scene, given the crossing of the ray with
/// each sphere in scene order.
///
/// The spheres are tested in turn, each against the closest hit so far, and
/// the result is pinned as exactly that. Where every crossing has its roots
/// in order, this is the first sphere with the least root inside
/// `(t_min, t_max)`, so the far bound that narrows on the way changes
/// nothing.
pub fn nearest(crossings: &Vec<Crossing>, t_min: Scalar, t_max: Scalar) -> (hit: Option<Hit>)
    ensures
        hit == scan(crossings@, t_min, t_max),
        all_ordered(crossings@) ==> is_nearest(hit, crossings@, t_min, t_max),
{
    let mut found: Option<Hit> = None;
    let mut closest: Scalar = t_max;
    let mut i: usize = 0;
    assert(crossings@.take(0) =~= Seq::<Crossing>::empty());
    while i < crossings.len()
        invariant
            i <= crossings.len(),
            found == scan(crossings@.take(i as int), t_min, t_max),
            closest == bound_after(found, t_max),
        decreases crossings.len() - i,
    {
        proof {
            let upto = crossings@.take(i + 1);
            assert(upto.drop_last() =~= crossings@.take(i as int));
            assert(upto.last() == crossings@[i as int]);
        }
        match crossings[i].root(t_min, closest) {
            Some(t) => {
                found = Some(Hit { index: i, t });
                closest = t;
            },
            None => {},
        }
        i += 1;
    }
    proof {
        assert(crossings@.take(i as int) =~= crossings@);
        if all_ordered(crossings@) {
            lemma_scan_is_nearest(crossings@, t_min, t_max);
        }
    }
    found
}

/// Narrowing the far bound never changes which root a sphere offers, only
/// whether it still offers it.
pub proof fn lemma_narrowed_root(c: Crossing, t_min: Scalar, t_max: Scalar, bound: Scalar)
    requires
        c.ordered(),
        bound == t_max || bound.spec_lt(t_max),
    ensures
        c.spec_root(t_min, bound) == match c.spec_root(t_min, t_max) {
            Some(t) => if t.spec_lt(bound) {
                Some(t)
            } else {
                None
            },
            None => None,
        },
{
}

/// Scanning a scene whose crossings are in order finds the nearest hit.
pub proof fn lemma_scan_is_nearest(crossings: Seq<Crossing>, t_min: Scalar, t_max: Scalar)
    requires
        all_ordered(crossings),
        crossings.len() <= usize::MAX,
    ensures
        is_nearest(scan(crossings, t_min, t_max), crossings, t_min, t_max),
    decreases crossings.len(),
{
    if crossings.len() > 0 {
        let earlier = crossings.drop_last();
        let before = scan(earlier, t_min, t_max);
        let bound = bound_after(before, t_max);
        let last = crossings.last();
        assert(forall|i: int| 0 <= i < earlier.len() ==> earlier[i] == crossings[i]);
        assert(all_ordered(earlier));
        lemma_scan_is_nearest(earlier, t_min, t_max);
        assert(last.ordered());
        lemma_narrowed_root(last, t_min, t_max, bound);
    }
}

/// A scene in which no quadratic has a positive discriminant is missed: a
/// ray that passes beside every sphere hits nothing.
pub proof fn lemma_no_solution_no_hit(crossings: Seq<Crossing>, t_min: Scalar, t_max: Scalar)
    requires
        forall|i: int|
            0 <= i < crossings.len() ==> !(#[trigger] crossings[i]).discriminant.spec_gt(
                Scalar { bits: 0 },
            ),
    ensures
        scan(crossings, t_min, t_max) is None,
    decreases crossings.len(),
{
    if crossings.len() > 0 {
        let earlier = crossings.drop_last();
        assert(forall|i: int| 0 <= i < earlier.len() ==> earlier[i] == crossings[i]);
        lemma_no_solution_no_hit(earlier, t_min, t_max);
        assert(crossings.last() == crossings[crossings.len() - 1]);
    }
}

/// The parameter of the nearest hit does not depend on the order of the
/// spheres: two scenes that hold the same crossings, in any order, are both
/// missed or are hit at the same number.
pub proof fn lemma_nearest_ignores_order(
    a: Seq<Crossing>,
    b: Seq<Crossing>,
    t_min: Scalar,
    t_max: Scalar,
)
    requires
        a.to_multiset() == b.to_multiset(),
        all_ordered(a),
        a.len() <= usize::MAX,
    ensures
        match (scan(a, t_min, t_max), scan(b, t_min, t_max)) {
            (None, None) => true,
            (Some(x), Some(y)) => x.t.value() == y.t.value(),
            _ => false,
        },
{
    a.to_multiset_ensures();
    b.to_multiset_ensures();
    assert forall|j: int| 0 <= j < b.len() implies (#[trigger] b[j]).ordered() by {
        assert(b.contains(b[j]));
        assert(a.to_multiset().count(b[j]) > 0);
        assert(a.contains(b[j]));
    }
    lemma_scan_is_nearest(a, t_min, t_max);
    lemma_scan_is_nearest(b, t_min, t_max);
    match scan(a, t_min, t_max) {
        Some(x) => {
            let c = a[x.index as int];
            assert(a.contains(c));
            assert(b.to_multiset().count(c) > 0);
            assert(b.contains(c));
        },
        None => {},
    }
    match scan(b, t_min, t_max) {
        Some(y) => {
            let c = b[y.index as int];
            assert(b.contains(c));
            assert(a.to_multiset().count(c) > 0);
            assert(a.contains(c));
        },
        None => {},
    }
}

} // verus!
