use vstd::prelude::*;
use bevy::platform::collections::HashSet;
use crate::coords::GridCoords;

verus! {

/// bevy's `HashSet` (hashbrown's set with a fixed hasher), held opaque: its
/// contents are known only through `squares_of`.
#[verifier::external_type_specification]
#[verifier::external_body]
#[verifier::reject_recursive_types(T)]
#[verifier::reject_recursive_types(S)]
pub struct ExHashSet<T, S>(HashSet<T, S>);

/// bevy's `FixedHasher`, the default hasher of its `HashSet`.
#[verifier::external_type_specification]
#[verifier::external_body]
pub struct ExFixedHasher(bevy::platform::hash::FixedHasher);

/// The squares that a `HashSet` of bevy's holds.
pub uninterp spec fn squares_of(s: HashSet<(i32, i32)>) -> Set<(i32, i32)>;

/// Relies on bevy's `HashSet::new`: the set starts empty.
#[verifier::external_body]
fn new_square_set() -> (r: HashSet<(i32, i32)>)
    ensures
        squares_of(r) == Set::<(i32, i32)>::empty(),
{
    HashSet::new()
}

/// Relies on bevy's `HashSet::insert`: afterwards the set also holds `c`.
#[verifier::external_body]
fn square_set_insert(s: HashSet<(i32, i32)>, c: (i32, i32)) -> (r: HashSet<(i32, i32)>)
    ensures
        squares_of(r) == squares_of(s).insert(c),
{
    let mut s = s;
    s.insert(c);
    s
}

/// Relies on bevy's `HashSet::contains`: membership of `c`.
#[verifier::external_body]
fn square_set_contains(s: &HashSet<(i32, i32)>, c: (i32, i32)) -> (r: bool)
    ensures
        r == squares_of(*s).contains(c),
{
    s.contains(&c)
}

/// Relies on bevy's `HashSet::len`: the number of distinct elements held.
#[verifier::external_body]
fn square_set_len(s: &HashSet<(i32, i32)>) -> (r: usize)
    ensures
        r == squares_of(*s).len(),
{
    s.len()
}

/// Relies on bevy's `HashSet::iter`, which visits each element once in some
/// order: the element at position `i` of that walk.
#[verifier::external_body]
fn square_set_nth(s: &HashSet<(i32, i32)>, i: usize) -> (r: Option<(i32, i32)>)
    ensures
        i < squares_of(*s).len() ==> r is Some && squares_of(*s).contains(r->0),
        i >= squares_of(*s).len() ==> r is None,
{
    s.iter().nth(i).copied()
}

/// A set of board squares, as the movement rules produce them.
#[derive(Debug)]
pub struct CoordSet {
    squares: HashSet<(i32, i32)>,
}

impl CoordSet {
    /// Sets are filled one insertion at a time, so they stay finite.
    #[verifier::type_invariant]
    spec fn inv(&self) -> bool {
        squares_of(self.squares).finite()
    }
}

impl View for CoordSet {
    type V = Set<(i32, i32)>;

    closed spec fn view(&self) -> Set<(i32, i32)> {
        squares_of(self.squares)
    }
}

impl CoordSet {
    /// An empty set.
    pub fn new() -> (r: CoordSet)
        ensures
            r@ == Set::<(i32, i32)>::empty(),
    {
        CoordSet { squares: new_square_set() }
    }

    /// Adds `c`.
    pub fn insert(&mut self, c: GridCoords)
        ensures
            final(self)@ == old(self)@.insert(c.pair()),
    {
        let mut taken = CoordSet::new();
        std::mem::swap(self, &mut taken);
        proof {
            use_type_invariant(&taken);
        }
        let squares = square_set_insert(taken.squares, (c.x, c.y));
        *self = CoordSet { squares };
    }

    /// Whether `c` is in the set.
    pub fn contains(&self, c: GridCoords) -> (r: bool)
        ensures
            r == self@.contains(c.pair()),
    {
        square_set_contains(&self.squares, (c.x, c.y))
    }

    /// The number of squares in the set.
    pub fn len(&self) -> (r: usize)
        ensures
            self@.finite(),
            r == self@.len(),
    {
        proof {
            use_type_invariant(self);
        }
        square_set_len(&self.squares)
    }

    /// Whether the set holds no square.
    pub fn is_empty(&self) -> (r: bool)
        ensures
            r == (self@ == Set::<(i32, i32)>::empty()),
    {
        proof {
            use_type_invariant(self);
        }
        let n = square_set_len(&self.squares);
        if n == 0 {
            proof {
                self@.lemma_len0_is_empty();
            }
            true
        } else {
            proof {
                assert(self@.len() > 0);
                if self@ == Set::<(i32, i32)>::empty() {
                    assert(self@.len() == 0);
                }
            }
            false
        }
    }

    /// The square at position `i` of the set's enumeration order, which
    /// depends on how the set was filled; none when `i` is past the end.
    pub fn nth(&self, i: usize) -> (r: Option<GridCoords>)
        ensures
            self@.finite(),
            i < self@.len() ==> r is Some && self@.contains(r->0.pair()),
            i >= self@.len() ==> r is None,
    {
        proof {
            use_type_invariant(self);
        }
        match square_set_nth(&self.squares, i) {
            Some((x, y)) => Some(GridCoords { x, y }),
            None => None,
        }
    }
}

} // verus!
