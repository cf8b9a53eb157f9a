//! Small identifier types and the four-player bit mask.

use vstd::prelude::*;

verus! {

/// A seat at the table; valid seats are 0..4.
#[derive(Clone, Copy, Debug, PartialEq, Eq, Hash, PartialOrd, Ord, Structural)]
pub struct PlayerId(pub u8);

impl PlayerId {
    /// All four seats in order.
    pub fn all() -> (a: [PlayerId; 4])
        ensures
            forall|i: int| 0 <= i < 4 ==> #[trigger] a[i].0 == i,
    {
        [PlayerId(0), PlayerId(1), PlayerId(2), PlayerId(3)]
    }

    pub fn idx(self) -> (i: usize)
        ensures
            i == self.0,
    {
        self.0 as usize
    }

    /// The seat after this one, clockwise.
    pub fn next(self) -> (p: PlayerId)
        requires
            self.0 < 255,
        ensures
            p.0 == (self.0 + 1) % 4,
    {
        PlayerId((self.0 + 1) % 4)
    }

    /// The seat before this one.
    pub fn prev(self) -> (p: PlayerId)
        requires
            self.0 <= 252,
        ensures
            p.0 == (self.0 + 3) % 4,
    {
        PlayerId((self.0 + 3) % 4)
    }
}

/// A vertex (intersection) of the board; valid ids are 0..54.
#[derive(Clone, Copy, Debug, PartialEq, Eq, Hash, PartialOrd, Ord, Structural)]
pub struct VertexId(pub u8);

impl VertexId {
    pub fn idx(self) -> (i: usize)
        ensures
            i == self.0,
    {
        self.0 as usize
    }
}

/// An edge (path) of the board; valid ids are 0..72.
#[derive(Clone, Copy, Debug, PartialEq, Eq, Hash, PartialOrd, Ord, Structural)]
pub struct EdgeId(pub u8);

impl EdgeId {
    pub fn idx(self) -> (i: usize)
        ensures
            i == self.0,
    {
        self.0 as usize
    }
}

/// A hex tile; valid ids are 0..19.
#[derive(Clone, Copy, Debug, PartialEq, Eq, Hash, PartialOrd, Ord, Structural)]
pub struct TileId(pub u8);

impl TileId {
    pub fn idx(self) -> (i: usize)
        ensures
            i == self.0,
    {
        self.0 as usize
    }
}

/// A set of seats stored as the low four bits of a byte.
#[derive(Clone, Copy, Debug, PartialEq, Eq, Default, Structural)]
pub struct PlayerMask(pub u8);

/// Whether bit `i` of `m` is set.
pub open spec fn bit_set(m: u8, i: u8) -> bool {
    (m >> i) & 1u8 == 1u8
}

/// The number of set bits among the lowest `n` bits of `m`.
pub open spec fn bits_below(m: u8, n: nat) -> nat
    decreases n,
{
    if n == 0 {
        0
    } else {
        bits_below(m, (n - 1) as nat) + if bit_set(m, (n - 1) as u8) { 1nat } else { 0nat }
    }
}

impl PlayerMask {
    /// The empty set.
    pub fn none() -> (m: PlayerMask)
        ensures
            m.0 == 0,
    {
        PlayerMask(0)
    }

    pub fn contains(self, player: PlayerId) -> (b: bool)
        requires
            player.0 < 8,
        ensures
            b == bit_set(self.0, player.0),
    {
        let m = self.0;
        let i = player.0;
        assert((m & (1u8 << i) != 0u8) == ((m >> i) & 1u8 == 1u8)) by (bit_vector)
            requires
                i < 8,
        ;
        self.0 & (1u8 << player.0) != 0
    }

    pub fn insert(&mut self, player: PlayerId)
        requires
            player.0 < 8,
        ensures
            forall|j: u8|
                j < 8 ==> bit_set(final(self).0, j) == (j == player.0 || bit_set(old(self).0, j)),
    {
        let m = self.0;
        let i = player.0;
        let r = m | (1u8 << i);
        assert(forall|j: u8| j < 8 ==> ((r >> j) & 1u8 == 1u8) == (j == i || (m >> j) & 1u8 == 1u8))
            by (bit_vector)
            requires
                i < 8,
                r == m | (1u8 << i),
        ;
        self.0 = r;
    }

    pub fn remove(&mut self, player: PlayerId)
        requires
            player.0 < 8,
        ensures
            forall|j: u8|
                j < 8 ==> bit_set(final(self).0, j) == (j != player.0 && bit_set(old(self).0, j)),
    {
        let m = self.0;
        let i = player.0;
        let r = m & !(1u8 << i);
        assert(forall|j: u8| j < 8 ==> ((r >> j) & 1u8 == 1u8) == (j != i && (m >> j) & 1u8 == 1u8))
            by (bit_vector)
            requires
                i < 8,
                r == m & !(1u8 << i),
        ;
        self.0 = r;
    }

    pub fn is_empty(self) -> (b: bool)
        ensures
            b == (self.0 == 0),
    {
        self.0 == 0
    }

    /// The lowest seat in the set.
    pub fn first(self) -> (r: Option<PlayerId>)
        ensures
            self.0 == 0 ==> r is None,
            self.0 != 0 ==> (r matches Some(p) && p.0 < 8 && bit_set(self.0, p.0) && (forall|j: u8|
                j < p.0 ==> !bit_set(self.0, j))),
    {
        if self.0 == 0 {
            None
        } else {
            let m = self.0;
            let mut i: u8 = 0;
            while i < 8
                invariant
                    i <= 8,
                    m == self.0,
                    m != 0,
                    forall|j: u8| j < i ==> !bit_set(m, j),
                decreases 8 - i,
            {
                if (m >> i) & 1u8 == 1u8 {
                    return Some(PlayerId(i));
                }
                i = i + 1;
            }
            assert(!bit_set(m, 0u8));
            assert(!bit_set(m, 1u8));
            assert(!bit_set(m, 2u8));
            assert(!bit_set(m, 3u8));
            assert(!bit_set(m, 4u8));
            assert(!bit_set(m, 5u8));
            assert(!bit_set(m, 6u8));
            assert(!bit_set(m, 7u8));
            assert(m == 0u8) by (bit_vector)
                requires
                    (m >> 0u8) & 1u8 != 1u8,
                    (m >> 1u8) & 1u8 != 1u8,
                    (m >> 2u8) & 1u8 != 1u8,
                    (m >> 3u8) & 1u8 != 1u8,
                    (m >> 4u8) & 1u8 != 1u8,
                    (m >> 5u8) & 1u8 != 1u8,
                    (m >> 6u8) & 1u8 != 1u8,
                    (m >> 7u8) & 1u8 != 1u8,
            ;
            None
        }
    }

    /// The number of seats in the set.
    pub fn count(self) -> (n: u32)
        ensures
            n == bits_below(self.0, 8),
    {
        let mut n: u32 = 0;
        let mut i: u8 = 0;
        while i < 8
            invariant
                i <= 8,
                n == bits_below(self.0, i as nat),
                n <= i,
            decreases 8 - i,
        {
            if (self.0 >> i) & 1u8 == 1u8 {
                n = n + 1;
            }
            i = i + 1;
        }
        n
    }

    /// The seats 0..4 in the set, in increasing order.
    pub fn iter(self) -> (v: Vec<PlayerId>)
        ensures
            forall|k: int| 0 <= k < v.len() ==> v[k].0 < 4 && bit_set(self.0, v[k].0),
            forall|k: int, l: int| 0 <= k < l < v.len() ==> v[k].0 < v[l].0,
            forall|j: u8| j < 4 && bit_set(self.0, j) ==> exists|k: int| 0 <= k < v.len() && v[k].0 == j,
    {
        let mut v: Vec<PlayerId> = Vec::new();
        let mut i: u8 = 0;
        while i < 4
            invariant
                i <= 4,
                forall|k: int| 0 <= k < v.len() ==> v[k].0 < i && bit_set(self.0, v[k].0),
                forall|k: int, l: int| 0 <= k < l < v.len() ==> v[k].0 < v[l].0,
                forall|j: u8| j < i && bit_set(self.0, j) ==> exists|k: int| 0 <= k < v.len() && v[k].0 == j,
            decreases 4 - i,
        {
            let ghost old_v = v@;
            if (self.0 >> i) & 1u8 == 1u8 {
                v.push(PlayerId(i));
                assert forall|j: u8| j < i + 1 && bit_set(self.0, j) implies exists|k: int|
                    0 <= k < v.len() && v[k].0 == j by {
                    if j == i {
                        assert(v[v.len() - 1].0 == j);
                    } else {
                        let k = choose|k: int| 0 <= k < old_v.len() && old_v[k].0 == j;
                        assert(v[k] == old_v[k]);
                    }
                }
            } else {
                assert forall|j: u8| j < i + 1 && bit_set(self.0, j) implies exists|k: int|
                    0 <= k < v.len() && v[k].0 == j by {
                    assert(j != i);
                }
            }
            i = i + 1;
        }
        v
    }
}

} // verus!
