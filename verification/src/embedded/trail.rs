//! The trail: the points the player has visited, oldest first, capped at a
//! fixed number of points.

use vstd::prelude::*;

verus! {

/// The most points a trail remembers.
pub const MAX_POINTS: usize = 512;

/// The visited points. Only the first `len` places of `points` are in use.
pub struct Trail {
    points: [(u8, u8); MAX_POINTS],
    len: usize,
}

impl Trail {
    /// The number of points in use fits the storage.
    pub closed spec fn wf(&self) -> bool {
        self.len <= MAX_POINTS
    }

    /// The points of the trail, oldest first.
    pub closed spec fn view(&self) -> Seq<(u8, u8)> {
        self.points@.take(self.len as int)
    }

    /// A trail is never longer than [`MAX_POINTS`].
    pub proof fn lemma_bounded(&self)
        requires
            self.wf(),
        ensures
            self@.len() <= MAX_POINTS,
    {
    }

    /// A trail that starts at `(x, y)`.
    pub fn new(x: u8, y: u8) -> (trail: Self)
        ensures
            trail.wf(),
            trail@ == seq![(x, y)],
    {
        let mut points = [(0u8, 0u8);MAX_POINTS];
        points[0] = (x, y);
        let trail = Trail { points, len: 1 };
        assert(trail@ =~= seq![(x, y)]);
        trail
    }

    /// Appends `(x, y)`. A trail that is full first forgets its oldest point.
    pub fn push(&mut self, x: u8, y: u8)
        requires
            old(self).wf(),
        ensures
            final(self).wf(),
            final(self)@ == (if old(self)@.len() == MAX_POINTS {
                old(self)@.skip(1)
            } else {
                old(self)@
            }).push((x, y)),
    {
        let ghost before = *self;
        if self.len < MAX_POINTS {
            self.points[self.len] = (x, y);
            self.len += 1;
            assert(self@ =~= before@.push((x, y)));
        } else {
            let mut i: usize = 1;
            while i < MAX_POINTS
                invariant
                    1 <= i <= MAX_POINTS,
                    self.len == MAX_POINTS,
                    before.len == MAX_POINTS,
                    forall|k: int| 0 <= k < i - 1 ==> self.points@[k] == before.points@[k + 1],
                    forall|k: int| i - 1 <= k < MAX_POINTS ==> self.points@[k] == before.points@[k],
                decreases MAX_POINTS - i,
            {
                self.points[i - 1] = self.points[i];
                i += 1;
            }
            self.points[MAX_POINTS - 1] = (x, y);
            assert(self@ =~= before@.skip(1).push((x, y)));
        }
    }

    /// Forgets every point and starts over at `(x, y)`.
    pub fn clear(&mut self, x: u8, y: u8)
        ensures
            final(self).wf(),
            final(self)@ == seq![(x, y)],
    {
        self.points[0] = (x, y);
        self.len = 1;
        assert(self@ =~= seq![(x, y)]);
    }

    /// Whether the trail holds no point.
    pub fn is_empty(&self) -> (empty: bool)
        requires
            self.wf(),
        ensures
            empty == (self@.len() == 0),
    {
        self.len == 0
    }

    /// The number of points in the trail.
    pub fn len(&self) -> (n: usize)
        requires
            self.wf(),
        ensures
            n == self@.len(),
    {
        self.len
    }

    /// The point at position `index`, counted from the oldest.
    pub fn point(&self, index: usize) -> (p: (u8, u8))
        requires
            self.wf(),
            index < self@.len(),
        ensures
            p == self@[index as int],
    {
        self.points[index]
    }
}

} // verus!
