//! The moves a player can make, their numbering in a flat action space of
//! 254 entries, and bit masks over that space.

use vstd::prelude::*;
use crate::resource::Resource;
use crate::types::{EdgeId, PlayerId, TileId, VertexId};

verus! {

#[derive(Clone, Copy, Debug, PartialEq, Eq, Hash, Structural)]
pub enum Action {
    PlaceSettlement(VertexId),
    PlaceRoad(EdgeId),
    BuildCity(VertexId),
    BuyDevelopmentCard,
    PlayKnight,
    PlayRoadBuilding,
    PlayYearOfPlenty(Resource, Resource),
    PlayMonopoly(Resource),
    RollDice,
    MoveRobber(TileId),
    StealFrom(PlayerId),
    StealFromNone,
    DiscardResource(Resource),
    BankTrade { give: Resource, receive: Resource },
    EndTurn,
}

// The flat action index (254 entries):
//
//   0..54    PlaceSettlement(v)
//  54..126   PlaceRoad(e)
// 126..180   BuildCity(v)
//       180  BuyDevelopmentCard
//       181  PlayKnight
//       182  PlayRoadBuilding
// 183..198   PlayYearOfPlenty(r1, r2) with r1 <= r2
// 198..203   PlayMonopoly(r)
//       203  RollDice
// 204..223   MoveRobber(t)
// 223..227   StealFrom(p)
//       227  StealFromNone
// 228..233   DiscardResource(r)
// 233..253   BankTrade(give, receive) with give != receive
//       253  EndTurn
pub const ACTION_SPACE_SIZE: usize = 254;

/// The first index of row `a` of the year-of-plenty pairs.
pub open spec fn yop_row_offset(a: int) -> int {
    if a == 0 {
        0
    } else if a == 1 {
        5
    } else if a == 2 {
        9
    } else if a == 3 {
        12
    } else {
        14
    }
}

/// The position of the unordered pair of resource indices `{x, y}` among the
/// 15 year-of-plenty choices.
pub open spec fn yop_index(x: int, y: int) -> int {
    let a = if x <= y { x } else { y };
    let b = if x <= y { y } else { x };
    yop_row_offset(a) + (b - a)
}

/// The position of trading `g` for `r` among the 20 bank trades.
pub open spec fn trade_index(g: int, r: int) -> int {
    g * 4 + if r > g { r - 1 } else { r }
}

/// The flat index of an action.
pub open spec fn action_index(a: Action) -> int {
    match a {
        Action::PlaceSettlement(v) => v.0 as int,
        Action::PlaceRoad(e) => 54 + e.0,
        Action::BuildCity(v) => 126 + v.0,
        Action::BuyDevelopmentCard => 180,
        Action::PlayKnight => 181,
        Action::PlayRoadBuilding => 182,
        Action::PlayYearOfPlenty(r1, r2) => 183 + yop_index(r1.spec_idx(), r2.spec_idx()),
        Action::PlayMonopoly(r) => 198 + r.spec_idx(),
        Action::RollDice => 203,
        Action::MoveRobber(t) => 204 + t.0,
        Action::StealFrom(p) => 223 + p.0,
        Action::StealFromNone => 227,
        Action::DiscardResource(r) => 228 + r.spec_idx(),
        Action::BankTrade { give, receive } => 233 + trade_index(give.spec_idx(), receive.spec_idx()),
        Action::EndTurn => 253,
    }
}

/// The year-of-plenty pair at position `idx` (0..15), smaller index first.
pub open spec fn yop_pair(idx: int) -> (int, int) {
    if idx < 5 {
        (0, idx)
    } else if idx < 9 {
        (1, idx - 4)
    } else if idx < 12 {
        (2, idx - 7)
    } else if idx < 14 {
        (3, idx - 9)
    } else {
        (4, 4)
    }
}

/// The bank trade at position `idx` (0..20).
pub open spec fn trade_pair(idx: int) -> (int, int) {
    let g = idx / 4;
    let r_adj = idx % 4;
    (g, if r_adj >= g { r_adj + 1 } else { r_adj })
}

/// The action with flat index `i` (0..254).
pub open spec fn action_at(i: int) -> Action {
    if i < 54 {
        Action::PlaceSettlement(VertexId(i as u8))
    } else if i < 126 {
        Action::PlaceRoad(EdgeId((i - 54) as u8))
    } else if i < 180 {
        Action::BuildCity(VertexId((i - 126) as u8))
    } else if i == 180 {
        Action::BuyDevelopmentCard
    } else if i == 181 {
        Action::PlayKnight
    } else if i == 182 {
        Action::PlayRoadBuilding
    } else if i < 198 {
        Action::PlayYearOfPlenty(
            Resource::from_spec_idx(yop_pair(i - 183).0),
            Resource::from_spec_idx(yop_pair(i - 183).1),
        )
    } else if i < 203 {
        Action::PlayMonopoly(Resource::from_spec_idx(i - 198))
    } else if i == 203 {
        Action::RollDice
    } else if i < 223 {
        Action::MoveRobber(TileId((i - 204) as u8))
    } else if i < 227 {
        Action::StealFrom(PlayerId((i - 223) as u8))
    } else if i == 227 {
        Action::StealFromNone
    } else if i < 233 {
        Action::DiscardResource(Resource::from_spec_idx(i - 228))
    } else if i < 253 {
        Action::BankTrade {
            give: Resource::from_spec_idx(trade_pair(i - 233).0),
            receive: Resource::from_spec_idx(trade_pair(i - 233).1),
        }
    } else {
        Action::EndTurn
    }
}

/// Ids are in range and a bank trade exchanges two different resources.
pub open spec fn action_wf(a: Action) -> bool {
    match a {
        Action::PlaceSettlement(v) => v.0 < 54,
        Action::PlaceRoad(e) => e.0 < 72,
        Action::BuildCity(v) => v.0 < 54,
        Action::MoveRobber(t) => t.0 < 19,
        Action::StealFrom(p) => p.0 < 4,
        Action::BankTrade { give, receive } => give != receive,
        _ => true,
    }
}

/// The form in which an action is listed: year of plenty names the resource
/// with the smaller index first.
pub open spec fn action_canonical(a: Action) -> bool {
    match a {
        Action::PlayYearOfPlenty(r1, r2) => r1.spec_idx() <= r2.spec_idx(),
        _ => true,
    }
}

/// Every index names a well-formed action in listed form, whose index it is.
pub proof fn lemma_index_roundtrip(i: int)
    requires
        0 <= i < 254,
    ensures
        action_index(action_at(i)) == i,
        action_wf(action_at(i)),
        action_canonical(action_at(i)),
{
    if 183 <= i < 198 {
        let (a, b) = yop_pair(i - 183);
        assert(Resource::from_spec_idx(a).spec_idx() == a);
        assert(Resource::from_spec_idx(b).spec_idx() == b);
    } else if 198 <= i < 203 {
        assert(Resource::from_spec_idx(i - 198).spec_idx() == i - 198);
    } else if 228 <= i < 233 {
        assert(Resource::from_spec_idx(i - 228).spec_idx() == i - 228);
    } else if 233 <= i < 253 {
        let (g, r) = trade_pair(i - 233);
        assert(Resource::from_spec_idx(g).spec_idx() == g);
        assert(Resource::from_spec_idx(r).spec_idx() == r);
    }
}

/// Every well-formed action in listed form has an index below 254, and that
/// index names it back.
pub proof fn lemma_action_roundtrip(a: Action)
    requires
        action_wf(a),
        action_canonical(a),
    ensures
        0 <= action_index(a) < 254,
        action_at(action_index(a)) == a,
{
    match a {
        Action::PlayYearOfPlenty(r1, r2) => {
            crate::resource::lemma_resource_idx_roundtrip(r1);
            crate::resource::lemma_resource_idx_roundtrip(r2);
        },
        Action::PlayMonopoly(r) => {
            crate::resource::lemma_resource_idx_roundtrip(r);
        },
        Action::DiscardResource(r) => {
            crate::resource::lemma_resource_idx_roundtrip(r);
        },
        Action::BankTrade { give, receive } => {
            crate::resource::lemma_resource_idx_roundtrip(give);
            crate::resource::lemma_resource_idx_roundtrip(receive);
            assert(give.spec_idx() != receive.spec_idx());
        },
        _ => {},
    }
}

/// Two well-formed actions in listed form with the same index are equal.
pub proof fn lemma_index_injective(a: Action, b: Action)
    requires
        action_wf(a),
        action_canonical(a),
        action_wf(b),
        action_canonical(b),
        action_index(a) == action_index(b),
    ensures
        a == b,
{
    lemma_action_roundtrip(a);
    lemma_action_roundtrip(b);
}

impl Action {
    /// Whether the action names things that exist: vertex, edge, tile and
    /// seat numbers in range, and a bank trade of one resource for another.
    pub fn is_well_formed(self) -> (b: bool)
        ensures
            b == action_wf(self),
    {
        match self {
            Action::PlaceSettlement(v) => v.0 < 54,
            Action::PlaceRoad(e) => e.0 < 72,
            Action::BuildCity(v) => v.0 < 54,
            Action::MoveRobber(t) => t.0 < 19,
            Action::StealFrom(p) => p.0 < 4,
            Action::BankTrade { give, receive } => give != receive,
            _ => true,
        }
    }

    pub fn to_index(self) -> (i: usize)
        ensures
            i == action_index(self),
    {
        match self {
            Action::PlaceSettlement(VertexId(vid)) => vid as usize,
            Action::PlaceRoad(EdgeId(eid)) => 54 + eid as usize,
            Action::BuildCity(VertexId(vid)) => 126 + vid as usize,
            Action::BuyDevelopmentCard => 180,
            Action::PlayKnight => 181,
            Action::PlayRoadBuilding => 182,
            Action::PlayYearOfPlenty(r1, r2) => 183 + yop_pair_index(r1, r2),
            Action::PlayMonopoly(r) => 198 + r.idx(),
            Action::RollDice => 203,
            Action::MoveRobber(TileId(tid)) => 204 + tid as usize,
            Action::StealFrom(PlayerId(pid)) => 223 + pid as usize,
            Action::StealFromNone => 227,
            Action::DiscardResource(r) => 228 + r.idx(),
            Action::BankTrade { give, receive } => 233 + bank_trade_index(give, receive),
            Action::EndTurn => 253,
        }
    }

    pub fn from_index(i: usize) -> (a: Action)
        requires
            i < 254,
        ensures
            a == action_at(i as int),
    {
        if i < 54 {
            Action::PlaceSettlement(VertexId(i as u8))
        } else if i < 126 {
            Action::PlaceRoad(EdgeId((i - 54) as u8))
        } else if i < 180 {
            Action::BuildCity(VertexId((i - 126) as u8))
        } else if i == 180 {
            Action::BuyDevelopmentCard
        } else if i == 181 {
            Action::PlayKnight
        } else if i == 182 {
            Action::PlayRoadBuilding
        } else if i < 198 {
            let (r1, r2) = yop_pair_from_index(i - 183);
            Action::PlayYearOfPlenty(r1, r2)
        } else if i < 203 {
            Action::PlayMonopoly(Resource::from_idx(i - 198))
        } else if i == 203 {
            Action::RollDice
        } else if i < 223 {
            Action::MoveRobber(TileId((i - 204) as u8))
        } else if i < 227 {
            Action::StealFrom(PlayerId((i - 223) as u8))
        } else if i == 227 {
            Action::StealFromNone
        } else if i < 233 {
            Action::DiscardResource(Resource::from_idx(i - 228))
        } else if i < 253 {
            let (give, receive) = bank_trade_from_index(i - 233);
            Action::BankTrade { give, receive }
        } else {
            Action::EndTurn
        }
    }
}

fn yop_pair_index(r1: Resource, r2: Resource) -> (i: usize)
    ensures
        i == yop_index(r1.spec_idx(), r2.spec_idx()),
        i < 15,
{
    let (a, b) = if r1.idx() <= r2.idx() {
        (r1.idx(), r2.idx())
    } else {
        (r2.idx(), r1.idx())
    };
    let row_offset: usize = if a == 0 {
        0
    } else if a == 1 {
        5
    } else if a == 2 {
        9
    } else if a == 3 {
        12
    } else {
        14
    };
    row_offset + (b - a)
}

fn yop_pair_from_index(idx: usize) -> (p: (Resource, Resource))
    requires
        idx < 15,
    ensures
        p.0 == Resource::from_spec_idx(yop_pair(idx as int).0),
        p.1 == Resource::from_spec_idx(yop_pair(idx as int).1),
{
    let (a, local): (usize, usize) = if idx < 5 {
        (0, idx)
    } else if idx < 9 {
        (1, idx - 5)
    } else if idx < 12 {
        (2, idx - 9)
    } else if idx < 14 {
        (3, idx - 12)
    } else {
        (4, 0)
    };
    (Resource::from_idx(a), Resource::from_idx(a + local))
}

fn bank_trade_index(give: Resource, receive: Resource) -> (i: usize)
    ensures
        i == trade_index(give.spec_idx(), receive.spec_idx()),
        i <= 20,
{
    let g = give.idx();
    let r = receive.idx();
    let r_adj = if r > g {
        r - 1
    } else {
        r
    };
    g * 4 + r_adj
}

fn bank_trade_from_index(idx: usize) -> (p: (Resource, Resource))
    requires
        idx < 20,
    ensures
        p.0 == Resource::from_spec_idx(trade_pair(idx as int).0),
        p.1 == Resource::from_spec_idx(trade_pair(idx as int).1),
{
    let g = idx / 4;
    let r_adj = idx % 4;
    let r = if r_adj >= g {
        r_adj + 1
    } else {
        r_adj
    };
    (Resource::from_idx(g), Resource::from_idx(r))
}

} // verus!

verus! {

/// Whether bit `b` of `w` is set.
pub open spec fn word_bit(w: u64, b: u64) -> bool {
    (w >> b) & 1u64 == 1u64
}

/// A set of flat action indices (0..256) stored as four 64-bit words.
#[derive(Clone, Copy, Debug, PartialEq, Eq)]
pub struct ActionMask {
    bits: [u64; 4],
}

/// The number of set indices below `n`.
pub open spec fn mask_count_below(m: ActionMask, n: int) -> nat
    decreases n,
{
    if n <= 0 {
        0
    } else {
        mask_count_below(m, n - 1) + if m.has(n - 1) { 1nat } else { 0nat }
    }
}

/// The actions of the set indices below `n` (at most 254), in increasing
/// index order.
pub open spec fn mask_actions_below(m: ActionMask, n: int) -> Seq<Action>
    decreases n,
{
    if n <= 0 {
        Seq::empty()
    } else if m.has(n - 1) {
        mask_actions_below(m, n - 1).push(action_at(n - 1))
    } else {
        mask_actions_below(m, n - 1)
    }
}

impl ActionMask {
    /// Index `i` is in the set.
    pub closed spec fn has(self, i: int) -> bool {
        0 <= i < 256 && word_bit(self.bits[i / 64], (i % 64) as u64)
    }

    /// The actions of the set indices below 254, in increasing index order.
    pub open spec fn listed(self) -> Seq<Action> {
        mask_actions_below(self, 254)
    }

    /// The empty set.
    pub fn empty() -> (m: ActionMask)
        ensures
            forall|i: int| !(#[trigger] m.has(i)),
    {
        let m = ActionMask { bits: [0u64; 4] };
        assert forall|i: int| !(#[trigger] m.has(i)) by {
            if 0 <= i < 256 {
                let b = (i % 64) as u64;
                assert((0u64 >> b) & 1u64 == 0u64) by (bit_vector);
            }
        }
        m
    }

    pub fn set(&mut self, idx: usize)
        requires
            idx < 256,
        ensures
            forall|i: int| #[trigger] final(self).has(i) == (i == idx || old(self).has(i)),
    {
        let w = idx / 64;
        let b = (idx % 64) as u64;
        let x = self.bits[w];
        let y = x | (1u64 << b);
        assert(forall|c: u64| c < 64 ==> #[trigger] word_bit(y, c) == (c == b || word_bit(x, c)))
            by (bit_vector)
            requires
                b < 64,
                y == x | (1u64 << b),
        ;
        self.bits[w] = y;
        assert forall|i: int| #[trigger] self.has(i) == (i == idx || old(self).has(i)) by {
            if 0 <= i < 256 {
                let c = (i % 64) as u64;
                if i / 64 == w {
                    assert(word_bit(y, c) == (c == b || word_bit(x, c)));
                }
            }
        }
    }

    pub fn get(self, idx: usize) -> (b: bool)
        requires
            idx < 256,
        ensures
            b == self.has(idx as int),
    {
        let w = self.bits[idx / 64];
        let b = (idx % 64) as u64;
        assert((w & (1u64 << b) != 0u64) == word_bit(w, b)) by (bit_vector)
            requires
                b < 64,
        ;
        w & (1u64 << b) != 0
    }

    /// The number of set indices.
    pub fn count(self) -> (n: u32)
        ensures
            n == mask_count_below(self, 256),
    {
        let mut n: u32 = 0;
        let mut i: usize = 0;
        while i < 256
            invariant
                i <= 256,
                n == mask_count_below(self, i as int),
                n <= i,
            decreases 256 - i,
        {
            if self.get(i) {
                n = n + 1;
            }
            i = i + 1;
        }
        n
    }

    pub fn set_action(&mut self, action: Action)
        requires
            action_index(action) < 256,
        ensures
            forall|i: int| #[trigger]
                final(self).has(i) == (i == action_index(action) || old(self).has(i)),
    {
        self.set(action.to_index());
    }

    /// Walks the set indices below 254 in increasing order.
    pub fn actions(self) -> (it: ActionMaskIter)
        ensures
            it.mask() == self,
            it.pos() == 0,
    {
        ActionMaskIter { bits: self.bits, pos: 0 }
    }

    /// The actions of the set indices below 254, in increasing index order.
    pub fn to_vec(self) -> (v: Vec<Action>)
        ensures
            v@ == self.listed(),
    {
        let mut v: Vec<Action> = Vec::new();
        let mut i: usize = 0;
        while i < 254
            invariant
                i <= 254,
                v@ == mask_actions_below(self, i as int),
            decreases 254 - i,
        {
            if self.get(i) {
                v.push(Action::from_index(i));
            }
            i = i + 1;
        }
        v
    }
}

/// A cursor over the set indices of a mask that lie below 254.
#[derive(Clone, Debug)]
pub struct ActionMaskIter {
    bits: [u64; 4],
    pos: usize,
}

impl ActionMaskIter {
    /// The mask being walked.
    pub closed spec fn mask(self) -> ActionMask {
        ActionMask { bits: self.bits }
    }

    /// The next index to look at.
    pub closed spec fn pos(self) -> int {
        self.pos as int
    }

    /// The action of the smallest set index at or after the cursor, moving the
    /// cursor past it; `None` when there is none below 254.
    pub fn next(&mut self) -> (a: Option<Action>)
        requires
            old(self).pos() <= 254,
        ensures
            final(self).mask() == old(self).mask(),
            final(self).pos() <= 254,
            match a {
                Some(x) => {
                    &&& old(self).pos() < final(self).pos()
                    &&& old(self).mask().has(final(self).pos() - 1)
                    &&& x == action_at(final(self).pos() - 1)
                    &&& forall|j: int|
                        old(self).pos() <= j < final(self).pos() - 1 ==> !old(self).mask().has(j)
                },
                None => {
                    &&& final(self).pos() == 254
                    &&& forall|j: int| old(self).pos() <= j < 254 ==> !old(self).mask().has(j)
                },
            },
    {
        let m = ActionMask { bits: self.bits };
        let start = self.pos;
        while self.pos < 254
            invariant
                start <= self.pos <= 254,
                start == old(self).pos(),
                m == self.mask(),
                m == old(self).mask(),
                forall|j: int| start <= j < self.pos ==> !m.has(j),
            decreases 254 - self.pos,
        {
            let i = self.pos;
            self.pos = self.pos + 1;
            if m.get(i) {
                return Some(Action::from_index(i));
            }
        }
        None
    }
}

/// The count of a mask is the number of listed actions plus the set indices
/// 254 and 255, which name no action.
pub proof fn lemma_count_listed(m: ActionMask)
    ensures
        mask_count_below(m, 256) == m.listed().len() + (if m.has(254) { 1nat } else { 0nat }) + (
        if m.has(255) {
            1nat
        } else {
            0nat
        }),
{
    lemma_count_actions(m, 254);
    assert(mask_count_below(m, 255) == mask_count_below(m, 254) + (if m.has(254) { 1nat } else { 0nat }));
    assert(mask_count_below(m, 256) == mask_count_below(m, 255) + (if m.has(255) { 1nat } else { 0nat }));
}

proof fn lemma_count_actions(m: ActionMask, n: int)
    requires
        0 <= n <= 254,
    ensures
        mask_count_below(m, n) == mask_actions_below(m, n).len(),
    decreases n,
{
    if n > 0 {
        lemma_count_actions(m, n - 1);
    }
}

/// The listed actions are exactly the actions of the set indices below 254.
pub proof fn lemma_listed(m: ActionMask, n: int)
    requires
        0 <= n <= 254,
    ensures
        forall|k: int|
            0 <= k < mask_actions_below(m, n).len() ==> exists|i: int|
                0 <= i < n && m.has(i) && #[trigger] mask_actions_below(m, n)[k] == action_at(i),
        forall|i: int|
            0 <= i < n && m.has(i) ==> mask_actions_below(m, n).contains(#[trigger] action_at(i)),
    decreases n,
{
    if n > 0 {
        lemma_listed(m, n - 1);
        let s = mask_actions_below(m, n);
        let s0 = mask_actions_below(m, n - 1);
        assert forall|k: int| 0 <= k < s.len() implies exists|i: int|
            0 <= i < n && m.has(i) && #[trigger] s[k] == action_at(i) by {
            if k < s0.len() {
                assert(s[k] == s0[k]);
            } else {
                assert(s[k] == action_at(n - 1));
            }
        }
        assert forall|i: int| 0 <= i < n && m.has(i) implies s.contains(#[trigger] action_at(i)) by {
            if i < n - 1 {
                let k = choose|k: int| 0 <= k < s0.len() && s0[k] == action_at(i);
                assert(s[k] == action_at(i));
            } else {
                assert(s[s.len() - 1] == action_at(i));
            }
        }
    }
}

} // verus!
