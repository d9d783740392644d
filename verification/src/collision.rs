//! Collision classifications and the rule that combines them when several
//! sample points are queried at once.

use vstd::prelude::*;

verus! {

/// Classification of a point or a rectangle of the world, ordered from
/// weakest to strongest: open space, a one-way platform, a solid tile, a
/// dynamic solid body.
#[derive(Debug, Clone, Copy, PartialEq, Eq, Structural)]
pub enum CollisionResult {
    Empty,
    Solid,
    JumpThrough,
    Collider,
}

/// Combination rule for two classifications: `Empty` is the unit on
/// `Empty`/`JumpThrough`, `JumpThrough` absorbs `Empty`, and anything
/// involving `Solid` or `Collider` is `Solid`.
pub open spec fn spec_or(a: CollisionResult, b: CollisionResult) -> CollisionResult {
    match (a, b) {
        (CollisionResult::Empty, CollisionResult::Empty) => CollisionResult::Empty,
        (CollisionResult::JumpThrough, CollisionResult::JumpThrough) => CollisionResult::JumpThrough,
        (CollisionResult::JumpThrough, CollisionResult::Empty) => CollisionResult::JumpThrough,
        (CollisionResult::Empty, CollisionResult::JumpThrough) => CollisionResult::JumpThrough,
        _ => CollisionResult::Solid,
    }
}

impl CollisionResult {
    /// Combine two classifications, strongest wins; see [`spec_or`].
    pub fn or(self, other: CollisionResult) -> (r: CollisionResult)
        ensures
            r == spec_or(self, other),
    {
        match (self, other) {
            (CollisionResult::Empty, CollisionResult::Empty) => CollisionResult::Empty,
            (CollisionResult::JumpThrough, CollisionResult::JumpThrough) => CollisionResult::JumpThrough,
            (CollisionResult::JumpThrough, CollisionResult::Empty) => CollisionResult::JumpThrough,
            (CollisionResult::Empty, CollisionResult::JumpThrough) => CollisionResult::JumpThrough,
            _ => CollisionResult::Solid,
        }
    }
}

/// The combination rule does not depend on the order of its arguments.
pub proof fn lemma_or_commutative(a: CollisionResult, b: CollisionResult)
    ensures
        spec_or(a, b) == spec_or(b, a),
{
}

/// The combination rule does not depend on the grouping of its arguments,
/// so a fold over any number of sample points is well defined.
pub proof fn lemma_or_associative(a: CollisionResult, b: CollisionResult, c: CollisionResult)
    ensures
        spec_or(spec_or(a, b), c) == spec_or(a, spec_or(b, c)),
{
}

/// `Empty` is the unit of the combination rule.
pub proof fn lemma_or_empty_unit(a: CollisionResult)
    ensures
        spec_or(a, CollisionResult::Empty) == if a == CollisionResult::Collider {
            CollisionResult::Solid
        } else {
            a
        },
        spec_or(CollisionResult::Empty, a) == spec_or(a, CollisionResult::Empty),
{
}

/// `Solid` (and the stronger `Collider`) absorbs everything.
pub proof fn lemma_or_solid_absorbs(a: CollisionResult)
    ensures
        spec_or(CollisionResult::Solid, a) == CollisionResult::Solid,
        spec_or(a, CollisionResult::Solid) == CollisionResult::Solid,
        spec_or(CollisionResult::Collider, a) == CollisionResult::Solid,
        spec_or(a, CollisionResult::Collider) == CollisionResult::Solid,
{
}

} // verus!
