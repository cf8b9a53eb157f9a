//! A player's hand, pieces in supply and harbor access.

use vstd::prelude::*;
use crate::board::Port;
use crate::resource::{DevCardHand, Resource, ResourceBank};
use crate::types::PlayerId;

verus! {

broadcast use {
    vstd::array::axiom_spec_array_update,
    vstd::array::axiom_array_ext_equal,
    vstd::array::array_len_matches_n,
};

#[derive(Clone, Copy, Debug)]
pub struct Player {
    pub id: PlayerId,
    pub resources: ResourceBank,
    pub dev_cards: DevCardHand,
    pub played_knights: u8,
    pub settlements_left: u8,
    pub cities_left: u8,
    pub roads_left: u8,
    pub has_three_to_one_port: bool,
    pub two_to_one_ports: [bool; 5],
}

/// How many of `r` the player gives the bank for one card.
pub open spec fn trade_rate_of(p: Player, r: Resource) -> u8 {
    if p.two_to_one_ports[r.spec_idx()] {
        2
    } else if p.has_three_to_one_port {
        3
    } else {
        4
    }
}

/// The player after gaining access to `port`.
pub open spec fn with_port(p: Player, port: Port) -> Player {
    match port {
        Port::ThreeToOne => Player { has_three_to_one_port: true, ..p },
        Port::TwoToOne(r) => Player {
            two_to_one_ports: vstd::array::spec_array_update(p.two_to_one_ports, r.spec_idx(), true),
            ..p
        },
    }
}

impl Player {
    /// A player with nothing in hand, five settlements, four cities and
    /// fifteen roads in supply, and no harbors.
    pub fn new(id: PlayerId) -> (p: Player)
        ensures
            p.id == id,
            forall|i: int| 0 <= i < 5 ==> #[trigger] p.resources.0[i] == 0,
            forall|i: int| 0 <= i < 5 ==> #[trigger] p.dev_cards.0[i] == 0,
            forall|i: int| 0 <= i < 5 ==> !#[trigger] p.two_to_one_ports[i],
            p.played_knights == 0,
            p.settlements_left == 5,
            p.cities_left == 4,
            p.roads_left == 15,
            !p.has_three_to_one_port,
    {
        Player {
            id,
            resources: ResourceBank([0u8; 5]),
            dev_cards: DevCardHand::empty(),
            played_knights: 0,
            settlements_left: 5,
            cities_left: 4,
            roads_left: 15,
            has_three_to_one_port: false,
            two_to_one_ports: [false; 5],
        }
    }

    /// 2 with a matching 2:1 harbor, else 3 with a 3:1 harbor, else 4.
    pub fn trade_rate(&self, resource: Resource) -> (n: u8)
        ensures
            n == trade_rate_of(*self, resource),
    {
        if self.two_to_one_ports[resource.idx()] {
            2
        } else if self.has_three_to_one_port {
            3
        } else {
            4
        }
    }

    pub fn update_ports(&mut self, port: Port)
        ensures
            *final(self) == with_port(*old(self), port),
    {
        match port {
            Port::ThreeToOne => self.has_three_to_one_port = true,
            Port::TwoToOne(r) => {
                let i = r.idx();
                self.two_to_one_ports[i] = true;
                assert(self.two_to_one_ports =~= vstd::array::spec_array_update(
                    old(self).two_to_one_ports,
                    r.spec_idx(),
                    true,
                ));
            },
        }
    }
}

} // verus!
