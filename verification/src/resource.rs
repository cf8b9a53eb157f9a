//! Resources, resource counts, development cards, hands and the deck.

use vstd::prelude::*;

verus! {

broadcast use {
    vstd::array::axiom_spec_array_update,
    vstd::array::axiom_array_ext_equal,
    vstd::array::array_len_matches_n,
};

} // verus!

verus! {

/// The five resource kinds, numbered 0..5 in this order.
#[derive(Clone, Copy, Debug, PartialEq, Eq, Hash, PartialOrd, Ord, Structural)]
pub enum Resource {
    Brick,
    Lumber,
    Ore,
    Grain,
    Wool,
}

impl Resource {
    pub open spec fn spec_idx(self) -> int {
        match self {
            Resource::Brick => 0,
            Resource::Lumber => 1,
            Resource::Ore => 2,
            Resource::Grain => 3,
            Resource::Wool => 4,
        }
    }

    /// The resource numbered `i`.
    pub open spec fn from_spec_idx(i: int) -> Resource {
        if i == 0 {
            Resource::Brick
        } else if i == 1 {
            Resource::Lumber
        } else if i == 2 {
            Resource::Ore
        } else if i == 3 {
            Resource::Grain
        } else {
            Resource::Wool
        }
    }

    pub fn idx(self) -> (i: usize)
        ensures
            i == self.spec_idx(),
            i < 5,
    {
        match self {
            Resource::Brick => 0,
            Resource::Lumber => 1,
            Resource::Ore => 2,
            Resource::Grain => 3,
            Resource::Wool => 4,
        }
    }

    pub fn from_idx(i: usize) -> (r: Resource)
        requires
            i < 5,
        ensures
            r == Resource::from_spec_idx(i as int),
            r.spec_idx() == i,
    {
        if i == 0 {
            Resource::Brick
        } else if i == 1 {
            Resource::Lumber
        } else if i == 2 {
            Resource::Ore
        } else if i == 3 {
            Resource::Grain
        } else {
            Resource::Wool
        }
    }

    /// All five resources in index order.
    pub fn all() -> (a: [Resource; 5])
        ensures
            forall|i: int| 0 <= i < 5 ==> (#[trigger] a[i]).spec_idx() == i,
    {
        [Resource::Brick, Resource::Lumber, Resource::Ore, Resource::Grain, Resource::Wool]
    }
}

/// A resource's index names it back.
pub proof fn lemma_resource_idx_roundtrip(r: Resource)
    ensures
        Resource::from_spec_idx(r.spec_idx()) == r,
        0 <= r.spec_idx() < 5,
{
}

/// Counts of each resource, indexed by `Resource::idx`.
#[derive(Clone, Copy, Debug, PartialEq, Eq, Hash, Default)]
pub struct ResourceBank(pub [u8; 5]);

/// The sum of the five counts.
pub open spec fn bank_total(b: ResourceBank) -> int {
    b.0[0] + b.0[1] + b.0[2] + b.0[3] + b.0[4]
}

/// Every count of `b` is at least the matching count of `cost`.
pub open spec fn bank_covers(b: ResourceBank, cost: ResourceBank) -> bool {
    forall|i: int| 0 <= i < 5 ==> b.0[i] >= cost.0[i]
}

impl ResourceBank {
    /// `n` of resource `r` and nothing else.
    pub fn single(r: Resource, n: u8) -> (c: ResourceBank)
        ensures
            forall|i: int| 0 <= i < 5 ==> c.0[i] == if i == r.spec_idx() { n } else { 0u8 },
    {
        let mut c = ResourceBank([0u8; 5]);
        c.0[r.idx()] = n;
        c
    }

    pub fn get(self, r: Resource) -> (n: u8)
        ensures
            n == self.0[r.spec_idx()],
    {
        self.0[r.idx()]
    }

    pub fn total(self) -> (t: u8)
        requires
            bank_total(self) <= 255,
        ensures
            t == bank_total(self),
    {
        self.0[0] + self.0[1] + self.0[2] + self.0[3] + self.0[4]
    }

    pub fn can_afford(self, cost: ResourceBank) -> (b: bool)
        ensures
            b == bank_covers(self, cost),
    {
        let mut i: usize = 0;
        while i < 5
            invariant
                i <= 5,
                forall|j: int| 0 <= j < i ==> self.0[j] >= cost.0[j],
            decreases 5 - i,
        {
            if self.0[i] < cost.0[i] {
                return false;
            }
            i = i + 1;
        }
        true
    }

    /// Subtracts `other` count by count, or `None` when some count of `other`
    /// is larger.
    pub fn checked_sub(self, other: ResourceBank) -> (r: Option<ResourceBank>)
        ensures
            bank_covers(self, other) <==> r is Some,
            r matches Some(d) ==> forall|i: int| 0 <= i < 5 ==> d.0[i] == self.0[i] - other.0[i],
    {
        if self.is_below(other) {
            return None;
        }
        let mut out = self;
        let mut i: usize = 0;
        while i < 5
            invariant
                i <= 5,
                bank_covers(self, other),
                forall|j: int| 0 <= j < i ==> out.0[j] == self.0[j] - other.0[j],
                forall|j: int| i <= j < 5 ==> out.0[j] == self.0[j],
            decreases 5 - i,
        {
            out.0[i] = out.0[i] - other.0[i];
            i = i + 1;
        }
        Some(out)
    }

    /// Whether some count is strictly smaller than the matching count of `other`
    /// (the `<` of this type's ordering).
    pub fn is_below(self, other: ResourceBank) -> (b: bool)
        ensures
            b == !bank_covers(self, other),
    {
        !self.can_afford(other)
    }
}

impl core::ops::Index<Resource> for ResourceBank {
    type Output = u8;

    fn index(&self, r: Resource) -> (n: &u8)
        ensures
            *n == self.0[r.spec_idx()],
    {
        &self.0[r.idx()]
    }
}

impl vstd::std_specs::core::IndexSpecImpl<Resource> for ResourceBank {
    open spec fn index_req(&self, index: &Resource) -> bool {
        true
    }
}

impl core::ops::IndexMut<Resource> for ResourceBank {
    fn index_mut(&mut self, r: Resource) -> (n: &mut u8)
        ensures
            *n == old(self).0[r.spec_idx()],
            final(self).0@ == old(self).0@.update(r.spec_idx(), *final(n)),
    {
        &mut self.0[r.idx()]
    }
}

impl core::ops::Add<ResourceBank> for ResourceBank {
    type Output = ResourceBank;

    fn add(self, other: ResourceBank) -> (s: ResourceBank) {
        let mut out = self;
        let mut i: usize = 0;
        while i < 5
            invariant
                i <= 5,
                forall|j: int| 0 <= j < 5 ==> self.0[j] + other.0[j] <= 255,
                forall|j: int| 0 <= j < i ==> out.0[j] == self.0[j] + other.0[j],
                forall|j: int| i <= j < 5 ==> out.0[j] == self.0[j],
            decreases 5 - i,
        {
            out.0[i] = out.0[i] + other.0[i];
            i = i + 1;
        }
        proof {
            assert(out.0@ =~= bank_sum(self, other).0@);
            assert(out.0 =~= bank_sum(self, other).0);
        }
        out
    }
}

impl vstd::std_specs::ops::AddSpecImpl<ResourceBank> for ResourceBank {
    open spec fn obeys_add_spec() -> bool {
        true
    }

    open spec fn add_req(self, rhs: ResourceBank) -> bool {
        forall|j: int| 0 <= j < 5 ==> self.0[j] + rhs.0[j] <= 255
    }

    open spec fn add_spec(self, rhs: ResourceBank) -> ResourceBank {
        bank_sum(self, rhs)
    }
}

/// Count-by-count sum of two banks, each count taken modulo 256.
pub open spec fn bank_sum(a: ResourceBank, b: ResourceBank) -> ResourceBank {
        ResourceBank(
            [
                (a.0[0] + b.0[0]) as u8,
                (a.0[1] + b.0[1]) as u8,
                (a.0[2] + b.0[2]) as u8,
                (a.0[3] + b.0[3]) as u8,
                (a.0[4] + b.0[4]) as u8,
            ],
        )
}

} // verus!

verus! {

/// Some count of `a` is strictly smaller than the matching count of `b`.
pub open spec fn bank_some_less(a: ResourceBank, b: ResourceBank) -> bool {
    exists|i: int| 0 <= i < 5 && a.0[i] < b.0[i]
}

/// Some count of `a` is strictly larger than the matching count of `b`.
pub open spec fn bank_some_greater(a: ResourceBank, b: ResourceBank) -> bool {
    exists|i: int| 0 <= i < 5 && a.0[i] > b.0[i]
}

impl PartialOrd for ResourceBank {
    /// `Less` when some count is smaller, else `Greater` when some count is
    /// larger, else `Equal`.
    fn partial_cmp(&self, other: &ResourceBank) -> (o: Option<core::cmp::Ordering>) {
        let mut ordering = core::cmp::Ordering::Equal;
        let mut i: usize = 0;
        while i < 5
            invariant
                i <= 5,
                forall|j: int| 0 <= j < i ==> self.0[j] >= other.0[j],
                (ordering == core::cmp::Ordering::Greater) <==> (exists|j: int|
                    0 <= j < i && self.0[j] > other.0[j]),
                ordering == core::cmp::Ordering::Greater || ordering == core::cmp::Ordering::Equal,
            decreases 5 - i,
        {
            if self.0[i] < other.0[i] {
                return Some(core::cmp::Ordering::Less);
            } else if self.0[i] > other.0[i] {
                ordering = core::cmp::Ordering::Greater;
            }
            i = i + 1;
        }
        Some(ordering)
    }
}

impl vstd::std_specs::cmp::PartialOrdSpecImpl for ResourceBank {
    open spec fn obeys_partial_cmp_spec() -> bool {
        true
    }

    open spec fn partial_cmp_spec(&self, other: &ResourceBank) -> Option<core::cmp::Ordering> {
        if bank_some_less(*self, *other) {
            Some(core::cmp::Ordering::Less)
        } else if bank_some_greater(*self, *other) {
            Some(core::cmp::Ordering::Greater)
        } else {
            Some(core::cmp::Ordering::Equal)
        }
    }
}

} // verus!

verus! {

/// Development card kinds, numbered 0..5 in this order.
#[derive(Clone, Copy, Debug, PartialEq, Eq, Hash, Structural)]
pub enum DevelopmentCard {
    Knight,
    VictoryPoint,
    RoadBuilding,
    YearOfPlenty,
    Monopoly,
}

impl DevelopmentCard {
    pub open spec fn spec_idx(self) -> int {
        match self {
            DevelopmentCard::Knight => 0,
            DevelopmentCard::VictoryPoint => 1,
            DevelopmentCard::RoadBuilding => 2,
            DevelopmentCard::YearOfPlenty => 3,
            DevelopmentCard::Monopoly => 4,
        }
    }

    pub fn idx(self) -> (i: usize)
        ensures
            i == self.spec_idx(),
            i < 5,
    {
        match self {
            DevelopmentCard::Knight => 0,
            DevelopmentCard::VictoryPoint => 1,
            DevelopmentCard::RoadBuilding => 2,
            DevelopmentCard::YearOfPlenty => 3,
            DevelopmentCard::Monopoly => 4,
        }
    }
}

/// Counts of each development card kind, indexed by `DevelopmentCard::idx`.
#[derive(Clone, Copy, Debug, PartialEq, Eq, Hash, Default)]
pub struct DevCardHand(pub [u8; 5]);

/// The number of cards in a hand.
pub open spec fn hand_total(h: DevCardHand) -> int {
    h.0[0] + h.0[1] + h.0[2] + h.0[3] + h.0[4]
}

impl DevCardHand {
    /// A hand with no cards.
    pub fn empty() -> (h: DevCardHand)
        ensures
            forall|i: int| 0 <= i < 5 ==> h.0[i] == 0,
            hand_total(h) == 0,
    {
        DevCardHand([0u8; 5])
    }

    pub fn get(self, c: DevelopmentCard) -> (n: u8)
        ensures
            n == self.0[c.spec_idx()],
    {
        self.0[c.idx()]
    }

    pub fn add(&mut self, c: DevelopmentCard)
        requires
            old(self).0[c.spec_idx()] < 255,
        ensures
            final(self).0@ == old(self).0@.update(c.spec_idx(), (old(self).0[c.spec_idx()] + 1) as u8),
    {
        let i = c.idx();
        self.0[i] = self.0[i] + 1;
    }

    /// Takes one card of kind `c` out of the hand; false (and no change) when
    /// there is none.
    pub fn remove(&mut self, c: DevelopmentCard) -> (b: bool)
        ensures
            b == (old(self).0[c.spec_idx()] > 0),
            b ==> final(self).0@ == old(self).0@.update(c.spec_idx(), (old(self).0[c.spec_idx()] - 1) as u8),
            !b ==> *final(self) == *old(self),
    {
        let i = c.idx();
        if self.0[i] > 0 {
            self.0[i] = self.0[i] - 1;
            true
        } else {
            false
        }
    }

    /// The same as `remove`.
    pub fn checked_sub_assign(&mut self, c: DevelopmentCard) -> (b: bool)
        ensures
            b == (old(self).0[c.spec_idx()] > 0),
            b ==> final(self).0@ == old(self).0@.update(c.spec_idx(), (old(self).0[c.spec_idx()] - 1) as u8),
            !b ==> *final(self) == *old(self),
    {
        self.remove(c)
    }

    pub fn total(self) -> (t: u8)
        requires
            hand_total(self) <= 255,
        ensures
            t == hand_total(self),
    {
        self.0[0] + self.0[1] + self.0[2] + self.0[3] + self.0[4]
    }

    pub fn has(self, c: DevelopmentCard) -> (b: bool)
        ensures
            b == (self.0[c.spec_idx()] > 0),
    {
        self.0[c.idx()] > 0
    }
}

impl core::ops::Index<DevelopmentCard> for DevCardHand {
    type Output = u8;

    fn index(&self, c: DevelopmentCard) -> (n: &u8)
        ensures
            *n == self.0[c.spec_idx()],
    {
        &self.0[c.idx()]
    }
}

impl vstd::std_specs::core::IndexSpecImpl<DevelopmentCard> for DevCardHand {
    open spec fn index_req(&self, index: &DevelopmentCard) -> bool {
        true
    }
}

impl core::ops::IndexMut<DevelopmentCard> for DevCardHand {
    fn index_mut(&mut self, c: DevelopmentCard) -> (n: &mut u8)
        ensures
            *n == old(self).0[c.spec_idx()],
            final(self).0@ == old(self).0@.update(c.spec_idx(), *final(n)),
    {
        &mut self.0[c.idx()]
    }
}

/// A face-down deck: the first `count` cards are still in it and the card at
/// `count - 1` is drawn next.
#[derive(Clone, Copy, Debug)]
pub struct DevCardDeck([DevelopmentCard; 25], usize);

impl DevCardDeck {
    #[verifier::type_invariant]
    spec fn count_in_range(self) -> bool {
        self.1 <= 25
    }

    /// The cards still in the deck, the next one to be drawn last.
    pub closed spec fn cards(self) -> Seq<DevelopmentCard> {
        if self.1 <= 25 {
            self.0@.take(self.1 as int)
        } else {
            self.0@
        }
    }

    /// The deck after its next card is drawn.
    pub closed spec fn drawn(self) -> DevCardDeck {
        let n: usize = if self.1 <= 25 {
            self.1
        } else {
            25
        };
        DevCardDeck(self.0, if n > 0 { (n - 1) as usize } else { 0 })
    }

    /// Drawing takes the last card of the deck.
    pub proof fn lemma_drawn(self)
        ensures
            self.cards().len() <= 25,
            self.cards().len() > 0 ==> self.drawn().cards() == self.cards().drop_last(),
    {
        if self.cards().len() > 0 {
            assert(self.drawn().cards() =~= self.cards().drop_last());
        }
    }

    /// A full deck holding `cards`, drawn from the last one back.
    pub fn full(cards: [DevelopmentCard; 25]) -> (d: DevCardDeck)
        ensures
            d.cards() == cards@,
    {
        let d = DevCardDeck(cards, 25);
        assert(d.cards() =~= cards@);
        d
    }

    pub fn draw(&mut self) -> (c: Option<DevelopmentCard>)
        ensures
            old(self).cards().len() == 0 ==> c is None && final(self).cards() == old(self).cards(),
            old(self).cards().len() > 0 ==> c == Some(old(self).cards().last()) && final(self).cards()
                == old(self).cards().drop_last() && *final(self) == old(self).drawn(),
    {
        proof {
            use_type_invariant(&*self);
        }
        if self.1 == 0 {
            return None;
        }
        self.1 = self.1 - 1;
        let c = self.0[self.1];
        assert(self.cards() =~= old(self).cards().drop_last());
        Some(c)
    }

    pub fn remaining(&self) -> (n: u8)
        ensures
            n == self.cards().len(),
            n <= 25,
    {
        proof {
            use_type_invariant(self);
        }
        self.1 as u8
    }
}

/// A deck holds at most twenty-five cards.
pub proof fn lemma_deck_len(d: DevCardDeck)
    ensures
        d.cards().len() <= 25,
{
}

} // verus!
