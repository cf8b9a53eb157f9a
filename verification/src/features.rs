//! An observation as the network's input: 626 entries, block by block, each
//! the fraction `num / den` of two small integers, so that the division is
//! the only step left to whoever builds the floating-point vector.

use vstd::prelude::*;
use crate::board::{Port, Terrain};
use crate::observation::{ObsEdge, ObsMeta, ObsOther, ObsSelf, ObsTile, ObsVertex, Observation, PlayerRelation};

verus! {

/// The place of a terrain in its one-hot block.
pub open spec fn terrain_slot(t: Terrain) -> int {
    match t {
        Terrain::Desert => 0,
        Terrain::Hills => 1,
        Terrain::Forest => 2,
        Terrain::Mountains => 3,
        Terrain::Fields => 4,
        Terrain::Pasture => 5,
    }
}

/// The place of a harbor in its one-hot block: the generic harbor first,
/// then one per resource.
pub open spec fn port_slot(p: Port) -> int {
    match p {
        Port::ThreeToOne => 0,
        Port::TwoToOne(r) => 1 + r.spec_idx(),
    }
}

/// 1 or 0.
pub open spec fn flag(b: bool) -> (u16, u16) {
    if b {
        (1, 1)
    } else {
        (0, 1)
    }
}

/// `n` entries, 1 at place `k` and 0 elsewhere.
pub open spec fn one_hot(n: nat, k: int) -> Seq<(u16, u16)> {
    Seq::new(n, |i: int| flag(i == k))
}

/// An owner relative to the observer: whether it is the observer, and how
/// far clockwise, in thirds of the table.
pub open spec fn relation_block(r: PlayerRelation) -> Seq<(u16, u16)> {
    match r {
        PlayerRelation::Self_ => seq![(1u16, 1u16), (0u16, 1u16)],
        PlayerRelation::Clockwise1 => seq![(0u16, 1u16), (1u16, 3u16)],
        PlayerRelation::Clockwise2 => seq![(0u16, 1u16), (2u16, 3u16)],
        PlayerRelation::Clockwise3 => seq![(0u16, 1u16), (3u16, 3u16)],
    }
}

/// A tile: its terrain one-hot, its number in twelfths, the robber.
pub open spec fn tile_block(t: ObsTile) -> Seq<(u16, u16)> {
    one_hot(6, terrain_slot(t.terrain)) + seq![(t.number as u16, 12u16), flag(t.has_robber)]
}

/// A vertex: nothing, half for a settlement, whole for a city, and the owner.
pub open spec fn vertex_block(v: ObsVertex) -> Seq<(u16, u16)> {
    match v {
        ObsVertex::Empty => seq![(0u16, 1u16), (0u16, 1u16), (0u16, 1u16)],
        ObsVertex::Settlement(r) => seq![(1u16, 2u16)] + relation_block(r),
        ObsVertex::City(r) => seq![(1u16, 1u16)] + relation_block(r),
    }
}

/// An edge: whether it holds a road, and the owner.
pub open spec fn edge_block(e: ObsEdge) -> Seq<(u16, u16)> {
    match e {
        ObsEdge::Empty => seq![(0u16, 1u16), (0u16, 1u16), (0u16, 1u16)],
        ObsEdge::Road(r) => seq![(1u16, 1u16)] + relation_block(r),
    }
}

/// A harbor, one-hot.
pub open spec fn harbor_block(p: Port) -> Seq<(u16, u16)> {
    one_hot(6, port_slot(p))
}

/// The observer: hand in nineteenths, cards in fifths, knights in
/// fourteenths, the awards, the longest road in fifteenths, the harbors.
pub open spec fn self_block(s: ObsSelf) -> Seq<(u16, u16)> {
    Seq::new(5, |j: int| (s.resources[j] as u16, 19u16)) + Seq::new(5, |j: int| (s.dev_cards[j] as u16, 5u16))
        + seq![
        (s.played_knights as u16, 14u16),
        flag(s.has_longest_road),
        (s.longest_road_length as u16, 15u16),
        flag(s.has_largest_army),
        flag(s.has_three_to_one_port),
    ] + Seq::new(5, |j: int| flag(s.two_to_one_ports[j]))
}

/// Another seat: counts of cards, knights, the awards.
pub open spec fn other_block(o: ObsOther) -> Seq<(u16, u16)> {
    seq![
        (o.total_resource_cards as u16, 19u16),
        (o.total_dev_cards as u16, 25u16),
        (o.played_knights as u16, 14u16),
        flag(o.has_longest_road),
        flag(o.has_largest_army),
    ]
}

/// The turn in five-hundredths, the deck in twenty-fifths, the bank in
/// nineteenths.
pub open spec fn meta_block(m: ObsMeta) -> Seq<(u16, u16)> {
    seq![(m.turn_number, 500u16), (m.dev_cards_remaining as u16, 25u16)] + Seq::new(
        5,
        |j: int| (m.resource_bank[j] as u16, 19u16),
    )
}

/// The blocks of the first `n` items, one after the other.
pub open spec fn blocks<T>(items: Seq<T>, block: spec_fn(T) -> Seq<(u16, u16)>, n: int) -> Seq<(u16, u16)>
    decreases n,
{
    if n <= 0 {
        Seq::empty()
    } else {
        blocks(items, block, n - 1) + block(items[n - 1])
    }
}

/// The whole input: tiles, vertices, edges, harbors, the observer, the
/// other seats clockwise, and the turn, deck and bank.
pub open spec fn features(o: Observation) -> Seq<(u16, u16)> {
    blocks(o.tiles@, |t: ObsTile| tile_block(t), 19) + blocks(o.vertices@, |v: ObsVertex| vertex_block(v), 54)
        + blocks(o.edges@, |e: ObsEdge| edge_block(e), 72) + blocks(o.harbors@, |p: Port| harbor_block(p), 9)
        + self_block(o.self_player) + blocks(o.other_players@, |x: ObsOther| other_block(x), 3) + meta_block(
        o.meta,
    )
}

proof fn lemma_blocks_len<T>(items: Seq<T>, block: spec_fn(T) -> Seq<(u16, u16)>, n: int, c: int)
    requires
        0 <= n,
        forall|x: T| (#[trigger] block(x)).len() == c,
    ensures
        blocks(items, block, n).len() == n * c,
    decreases n,
{
    if n > 0 {
        lemma_blocks_len(items, block, n - 1, c);
        assert(block(items[n - 1]).len() == c);
        assert(blocks(items, block, n).len() == blocks(items, block, n - 1).len() + c);
        assert((n - 1) * c + c == n * c) by (nonlinear_arith);
    } else {
        assert(0 * c == 0) by (nonlinear_arith);
    }
}

fn push_flag(out: &mut Vec<(u16, u16)>, b: bool)
    ensures
        final(out)@ == old(out)@.push(flag(b)),
{
    if b {
        out.push((1, 1));
    } else {
        out.push((0, 1));
    }
}

fn push_one_hot(out: &mut Vec<(u16, u16)>, n: usize, k: usize)
    ensures
        final(out)@ == old(out)@ + one_hot(n as nat, k as int),
{
    let ghost start = out@;
    let mut i: usize = 0;
    while i < n
        invariant
            i <= n,
            out@ == start + Seq::new(i as nat, |j: int| flag(j == k)),
        decreases n - i,
    {
        push_flag(out, i == k);
        i = i + 1;
        assert(out@ =~= start + Seq::new(i as nat, |j: int| flag(j == k)));
    }
    assert(out@ =~= start + one_hot(n as nat, k as int));
}

fn push_relation(out: &mut Vec<(u16, u16)>, r: PlayerRelation)
    ensures
        final(out)@ == old(out)@ + relation_block(r),
{
    let ghost start = out@;
    match r {
        PlayerRelation::Self_ => {
            out.push((1, 1));
            out.push((0, 1));
        },
        PlayerRelation::Clockwise1 => {
            out.push((0, 1));
            out.push((1, 3));
        },
        PlayerRelation::Clockwise2 => {
            out.push((0, 1));
            out.push((2, 3));
        },
        PlayerRelation::Clockwise3 => {
            out.push((0, 1));
            out.push((3, 3));
        },
    }
    assert(out@ =~= start + relation_block(r));
}

fn push_tile(out: &mut Vec<(u16, u16)>, t: ObsTile)
    ensures
        final(out)@ == old(out)@ + tile_block(t),
{
    let ghost start = out@;
    let slot: usize = match t.terrain {
        Terrain::Desert => 0,
        Terrain::Hills => 1,
        Terrain::Forest => 2,
        Terrain::Mountains => 3,
        Terrain::Fields => 4,
        Terrain::Pasture => 5,
    };
    push_one_hot(out, 6, slot);
    out.push((t.number as u16, 12));
    push_flag(out, t.has_robber);
    assert(out@ =~= start + tile_block(t));
}

fn push_vertex(out: &mut Vec<(u16, u16)>, v: ObsVertex)
    ensures
        final(out)@ == old(out)@ + vertex_block(v),
{
    let ghost start = out@;
    match v {
        ObsVertex::Empty => {
            out.push((0, 1));
            out.push((0, 1));
            out.push((0, 1));
        },
        ObsVertex::Settlement(r) => {
            out.push((1, 2));
            push_relation(out, r);
        },
        ObsVertex::City(r) => {
            out.push((1, 1));
            push_relation(out, r);
        },
    }
    assert(out@ =~= start + vertex_block(v));
}

fn push_edge(out: &mut Vec<(u16, u16)>, e: ObsEdge)
    ensures
        final(out)@ == old(out)@ + edge_block(e),
{
    let ghost start = out@;
    match e {
        ObsEdge::Empty => {
            out.push((0, 1));
            out.push((0, 1));
            out.push((0, 1));
        },
        ObsEdge::Road(r) => {
            out.push((1, 1));
            push_relation(out, r);
        },
    }
    assert(out@ =~= start + edge_block(e));
}

fn push_harbor(out: &mut Vec<(u16, u16)>, p: Port)
    ensures
        final(out)@ == old(out)@ + harbor_block(p),
{
    let slot: usize = match p {
        Port::ThreeToOne => 0,
        Port::TwoToOne(r) => 1 + r.idx(),
    };
    push_one_hot(out, 6, slot);
}

fn push_counts(out: &mut Vec<(u16, u16)>, counts: &[u8; 5], den: u16)
    ensures
        final(out)@ == old(out)@ + Seq::new(5, |j: int| (counts[j] as u16, den)),
{
    let ghost start = out@;
    let mut j: usize = 0;
    while j < 5
        invariant
            j <= 5,
            out@ == start + Seq::new(j as nat, |i: int| (counts[i] as u16, den)),
        decreases 5 - j,
    {
        out.push((counts[j] as u16, den));
        j = j + 1;
        assert(out@ =~= start + Seq::new(j as nat, |i: int| (counts[i] as u16, den)));
    }
}

fn push_self(out: &mut Vec<(u16, u16)>, s: &ObsSelf)
    ensures
        final(out)@ == old(out)@ + self_block(*s),
{
    let ghost start = out@;
    push_counts(out, &s.resources, 19);
    push_counts(out, &s.dev_cards, 5);
    out.push((s.played_knights as u16, 14));
    push_flag(out, s.has_longest_road);
    out.push((s.longest_road_length as u16, 15));
    push_flag(out, s.has_largest_army);
    push_flag(out, s.has_three_to_one_port);
    let ghost mid = out@;
    let mut j: usize = 0;
    while j < 5
        invariant
            j <= 5,
            out@ == mid + Seq::new(j as nat, |i: int| flag(s.two_to_one_ports[i])),
        decreases 5 - j,
    {
        push_flag(out, s.two_to_one_ports[j]);
        j = j + 1;
        assert(out@ =~= mid + Seq::new(j as nat, |i: int| flag(s.two_to_one_ports[i])));
    }
    assert(out@ =~= start + self_block(*s));
}

fn push_other(out: &mut Vec<(u16, u16)>, o: &ObsOther)
    ensures
        final(out)@ == old(out)@ + other_block(*o),
{
    let ghost start = out@;
    out.push((o.total_resource_cards as u16, 19));
    out.push((o.total_dev_cards as u16, 25));
    out.push((o.played_knights as u16, 14));
    push_flag(out, o.has_longest_road);
    push_flag(out, o.has_largest_army);
    assert(out@ =~= start + other_block(*o));
}

fn push_meta(out: &mut Vec<(u16, u16)>, m: &ObsMeta)
    ensures
        final(out)@ == old(out)@ + meta_block(*m),
{
    let ghost start = out@;
    out.push((m.turn_number, 500));
    out.push((m.dev_cards_remaining as u16, 25));
    push_counts(out, &m.resource_bank, 19);
    assert(out@ =~= start + meta_block(*m));
}

impl Observation {
    /// The observation as the network's input: 626 fractions `(num, den)`,
    /// laid out as `features` says.
    pub fn features(&self) -> (v: Vec<(u16, u16)>)
        ensures
            v@ == features(*self),
            v.len() == 626,
    {
        let mut v: Vec<(u16, u16)> = Vec::new();
        let mut i: usize = 0;
        while i < 19
            invariant
                i <= 19,
                v@ == blocks(self.tiles@, |t: ObsTile| tile_block(t), i as int),
            decreases 19 - i,
        {
            push_tile(&mut v, self.tiles[i]);
            i = i + 1;
        }
        let ghost after_tiles = v@;
        let mut i: usize = 0;
        while i < 54
            invariant
                i <= 54,
                v@ == after_tiles + blocks(self.vertices@, |x: ObsVertex| vertex_block(x), i as int),
            decreases 54 - i,
        {
            push_vertex(&mut v, self.vertices[i]);
            i = i + 1;
            assert(v@ =~= after_tiles + blocks(self.vertices@, |x: ObsVertex| vertex_block(x), i as int));
        }
        let ghost after_vertices = v@;
        let mut i: usize = 0;
        while i < 72
            invariant
                i <= 72,
                v@ == after_vertices + blocks(self.edges@, |x: ObsEdge| edge_block(x), i as int),
            decreases 72 - i,
        {
            push_edge(&mut v, self.edges[i]);
            i = i + 1;
            assert(v@ =~= after_vertices + blocks(self.edges@, |x: ObsEdge| edge_block(x), i as int));
        }
        let ghost after_edges = v@;
        let mut i: usize = 0;
        while i < 9
            invariant
                i <= 9,
                v@ == after_edges + blocks(self.harbors@, |x: Port| harbor_block(x), i as int),
            decreases 9 - i,
        {
            push_harbor(&mut v, self.harbors[i]);
            i = i + 1;
            assert(v@ =~= after_edges + blocks(self.harbors@, |x: Port| harbor_block(x), i as int));
        }
        push_self(&mut v, &self.self_player);
        let ghost after_self = v@;
        let mut i: usize = 0;
        while i < 3
            invariant
                i <= 3,
                v@ == after_self + blocks(self.other_players@, |x: ObsOther| other_block(x), i as int),
            decreases 3 - i,
        {
            push_other(&mut v, &self.other_players[i]);
            i = i + 1;
            assert(v@ =~= after_self + blocks(self.other_players@, |x: ObsOther| other_block(x), i as int));
        }
        push_meta(&mut v, &self.meta);
        proof {
            assert(v@ =~= features(*self));
            lemma_blocks_len(self.tiles@, |t: ObsTile| tile_block(t), 19, 8);
            lemma_blocks_len(self.vertices@, |x: ObsVertex| vertex_block(x), 54, 3);
            lemma_blocks_len(self.edges@, |x: ObsEdge| edge_block(x), 72, 3);
            lemma_blocks_len(self.harbors@, |x: Port| harbor_block(x), 9, 6);
            lemma_blocks_len(self.other_players@, |x: ObsOther| other_block(x), 3, 5);
        }
        v
    }
}

} // verus!
