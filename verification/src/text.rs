//! Text forms of the game's values: decimal numbers, padding to a width,
//! and the words printed for players, resources, cards, actions and phases.

use vstd::prelude::*;
use crate::action::Action;
use crate::board::{Port, Terrain};
use crate::display::{board_terrain_word, digit_char, digit_str, terrain_word};
use crate::game::Phase;
use crate::player::Player;
use crate::resource::{DevCardHand, DevelopmentCard, Resource, ResourceBank};
use crate::types::PlayerId;

verus! {

/// The decimal digits of `n`.
pub open spec fn decimal(n: nat) -> Seq<char>
    decreases n,
{
    if n < 10 {
        seq![digit_char(n as int)]
    } else {
        decimal(n / 10).push(digit_char((n % 10) as int))
    }
}

/// Every number has at least one digit.
pub proof fn lemma_decimal_nonempty(n: nat)
    ensures
        decimal(n).len() >= 1,
{
}

/// `n` written in decimal.
pub fn decimal_text(n: u64) -> (s: String)
    ensures
        s@ == decimal(n as nat),
    decreases n,
{
    if n < 10 {
        String::from_str(digit_str(n as u8))
    } else {
        let mut s = decimal_text(n / 10);
        s.append(digit_str((n % 10) as u8));
        proof {
            assert(s@ =~= decimal(n as nat));
        }
        s
    }
}

/// `piece` written `n` times.
pub open spec fn times(piece: Seq<char>, n: nat) -> Seq<char>
    decreases n,
{
    if n == 0 {
        Seq::empty()
    } else {
        times(piece, (n - 1) as nat) + piece
    }
}

/// Appends `piece` `n` times.
pub fn push_times(out: &mut String, piece: &str, n: usize)
    ensures
        final(out)@ == old(out)@ + times(piece@, n as nat),
{
    let ghost start = out@;
    let mut i: usize = 0;
    assert(start =~= start + times(piece@, 0));
    while i < n
        invariant
            i <= n,
            out@ == start + times(piece@, i as nat),
        decreases n - i,
    {
        out.append(piece);
        i = i + 1;
        proof {
            assert(out@ =~= start + times(piece@, i as nat));
        }
    }
}

/// `s` right-aligned in `w` columns, as `{:>w}` writes it.
pub open spec fn align_right(s: Seq<char>, w: nat) -> Seq<char> {
    if s.len() < w {
        times(" "@, (w - s.len()) as nat) + s
    } else {
        s
    }
}

/// `s` left-aligned in `w` columns, as `{:<w}` writes it.
pub open spec fn align_left(s: Seq<char>, w: nat) -> Seq<char> {
    if s.len() < w {
        s + times(" "@, (w - s.len()) as nat)
    } else {
        s
    }
}

/// `s` centered in `w` columns, as `{:^w}` writes it: the odd space goes to
/// the right.
pub open spec fn align_center(s: Seq<char>, w: nat) -> Seq<char> {
    if s.len() < w {
        let pad = (w - s.len()) as nat;
        times(" "@, pad / 2) + s + times(" "@, (pad - pad / 2) as nat)
    } else {
        s
    }
}

pub fn push_right(out: &mut String, s: &str, w: usize)
    ensures
        final(out)@ == old(out)@ + align_right(s@, w as nat),
{
    let len = s.unicode_len();
    let ghost start = out@;
    if len < w {
        push_times(out, " ", w - len);
    }
    out.append(s);
    assert(out@ =~= start + align_right(s@, w as nat));
}

pub fn push_left(out: &mut String, s: &str, w: usize)
    ensures
        final(out)@ == old(out)@ + align_left(s@, w as nat),
{
    let len = s.unicode_len();
    let ghost start = out@;
    out.append(s);
    if len < w {
        push_times(out, " ", w - len);
    }
    assert(out@ =~= start + align_left(s@, w as nat));
}

pub fn push_center(out: &mut String, s: &str, w: usize)
    ensures
        final(out)@ == old(out)@ + align_center(s@, w as nat),
{
    let len = s.unicode_len();
    let ghost start = out@;
    if len < w {
        let pad = w - len;
        push_times(out, " ", pad / 2);
        out.append(s);
        push_times(out, " ", pad - pad / 2);
    } else {
        out.append(s);
    }
    assert(out@ =~= start + align_center(s@, w as nat));
}

/// Appends `n` in decimal.
pub fn push_decimal(out: &mut String, n: u64)
    ensures
        final(out)@ == old(out)@ + decimal(n as nat),
{
    let d = decimal_text(n);
    out.append(d.as_str());
}

/// A seat, as `P0` to `P3`.
pub open spec fn player_word(p: PlayerId) -> Seq<char> {
    "P"@ + decimal(p.0 as nat)
}

/// The name of a resource.
pub open spec fn resource_word(r: Resource) -> Seq<char> {
    match r {
        Resource::Brick => "Brick"@,
        Resource::Lumber => "Lumber"@,
        Resource::Ore => "Ore"@,
        Resource::Grain => "Grain"@,
        Resource::Wool => "Wool"@,
    }
}

/// A harbor's rate.
pub open spec fn port_word(p: Port) -> Seq<char> {
    match p {
        Port::ThreeToOne => "3:1"@,
        Port::TwoToOne(r) => "2:1 "@ + resource_word(r),
    }
}

/// Five counts of a bank or hand, labeled by resource.
pub open spec fn bank_word(b: ResourceBank) -> Seq<char> {
    "[B:"@ + decimal(b.0[0] as nat) + " L:"@ + decimal(b.0[1] as nat) + " O:"@ + decimal(
        b.0[2] as nat,
    ) + " G:"@ + decimal(b.0[3] as nat) + " W:"@ + decimal(b.0[4] as nat) + "]"@
}

/// The name of a development card.
pub open spec fn card_word(c: DevelopmentCard) -> Seq<char> {
    match c {
        DevelopmentCard::Knight => "Knight"@,
        DevelopmentCard::VictoryPoint => "VP"@,
        DevelopmentCard::RoadBuilding => "RoadBuild"@,
        DevelopmentCard::YearOfPlenty => "YoP"@,
        DevelopmentCard::Monopoly => "Monopoly"@,
    }
}

/// The short name of the development card with index `i`.
pub open spec fn card_abbrev(i: int) -> Seq<char> {
    if i == 0 {
        "Kn"@
    } else if i == 1 {
        "VP"@
    } else if i == 2 {
        "RB"@
    } else if i == 3 {
        "YP"@
    } else {
        "Mo"@
    }
}

/// The held kinds among the first `n` of a hand, as `2xKn 1xMo`.
pub open spec fn hand_items(h: DevCardHand, n: int) -> Seq<char>
    decreases n,
{
    if n <= 0 {
        Seq::empty()
    } else {
        let prev = hand_items(h, n - 1);
        if h.0[n - 1] > 0 {
            let item = decimal(h.0[n - 1] as nat) + "x"@ + card_abbrev(n - 1);
            if prev.len() == 0 {
                item
            } else {
                prev + " "@ + item
            }
        } else {
            prev
        }
    }
}

/// A hand of development cards, or `(none)`.
pub open spec fn hand_word(h: DevCardHand) -> Seq<char> {
    if hand_items(h, 5).len() == 0 {
        "(none)"@
    } else {
        hand_items(h, 5)
    }
}

/// An action, as the log prints it.
pub open spec fn action_word(a: Action) -> Seq<char> {
    match a {
        Action::PlaceSettlement(v) => "Settlement@v"@ + decimal(v.0 as nat),
        Action::PlaceRoad(e) => "Road@e"@ + decimal(e.0 as nat),
        Action::BuildCity(v) => "City@v"@ + decimal(v.0 as nat),
        Action::BuyDevelopmentCard => "BuyDevCard"@,
        Action::PlayKnight => "PlayKnight"@,
        Action::PlayRoadBuilding => "PlayRoadBuilding"@,
        Action::PlayYearOfPlenty(r1, r2) => "YoP("@ + resource_word(r1) + ","@ + resource_word(r2) + ")"@,
        Action::PlayMonopoly(r) => "Monopoly("@ + resource_word(r) + ")"@,
        Action::RollDice => "RollDice"@,
        Action::MoveRobber(t) => "Robber->t"@ + decimal(t.0 as nat),
        Action::StealFrom(p) => "Steal("@ + player_word(p) + ")"@,
        Action::StealFromNone => "StealNone"@,
        Action::DiscardResource(r) => "Discard("@ + resource_word(r) + ")"@,
        Action::BankTrade { give, receive } => "Trade("@ + resource_word(give) + "->"@ + resource_word(
            receive,
        ) + ")"@,
        Action::EndTurn => "EndTurn"@,
    }
}

/// A phase, as the status line prints it.
pub open spec fn phase_word(p: Phase) -> Seq<char> {
    match p {
        Phase::SetupSettlement { player, round } => "Setup R"@ + decimal(round as nat) + ": "@ + player_word(
            player,
        ) + " place settlement"@,
        Phase::SetupRoad { player, round, .. } => "Setup R"@ + decimal(round as nat) + ": "@ + player_word(
            player,
        ) + " place road"@,
        Phase::PreRoll => "PreRoll"@,
        Phase::ChanceRoll => "Dice"@,
        Phase::Discard { active, .. } => player_word(active) + " must discard"@,
        Phase::MoveRobber => "Move robber"@,
        Phase::Steal { .. } => "Steal"@,
        Phase::Main => "Main"@,
        Phase::RoadBuilding { roads_left } => "RoadBuilding("@ + decimal(roads_left as nat) + " left)"@,
        Phase::GameOver { winner } => "Game Over: "@ + player_word(winner) + " wins"@,
    }
}

/// A player's seat, hand, development cards and knights.
pub open spec fn player_summary(p: Player) -> Seq<char> {
    player_word(p.id) + "  "@ + bank_word(p.resources) + "  ·  dev ["@ + hand_word(p.dev_cards)
        + "]  ·  "@ + decimal(p.played_knights as nat) + " knights played"@
}

pub fn push_player(out: &mut String, p: PlayerId)
    ensures
        final(out)@ == old(out)@ + player_word(p),
{
    let ghost start = out@;
    out.append("P");
    push_decimal(out, p.0 as u64);
    assert(out@ =~= start + player_word(p));
}

fn resource_str(r: Resource) -> (s: &'static str)
    ensures
        s@ == resource_word(r),
{
    match r {
        Resource::Brick => "Brick",
        Resource::Lumber => "Lumber",
        Resource::Ore => "Ore",
        Resource::Grain => "Grain",
        Resource::Wool => "Wool",
    }
}

pub fn push_bank(out: &mut String, b: &ResourceBank)
    ensures
        final(out)@ == old(out)@ + bank_word(*b),
{
    let ghost start = out@;
    out.append("[B:");
    push_decimal(out, b.0[0] as u64);
    out.append(" L:");
    push_decimal(out, b.0[1] as u64);
    out.append(" O:");
    push_decimal(out, b.0[2] as u64);
    out.append(" G:");
    push_decimal(out, b.0[3] as u64);
    out.append(" W:");
    push_decimal(out, b.0[4] as u64);
    out.append("]");
    assert(out@ =~= start + bank_word(*b));
}

fn card_abbrev_str(i: usize) -> (s: &'static str)
    ensures
        s@ == card_abbrev(i as int),
{
    if i == 0 {
        "Kn"
    } else if i == 1 {
        "VP"
    } else if i == 2 {
        "RB"
    } else if i == 3 {
        "YP"
    } else {
        "Mo"
    }
}

pub fn push_hand(out: &mut String, h: &DevCardHand)
    ensures
        final(out)@ == old(out)@ + hand_word(*h),
{
    let ghost start = out@;
    let mut items = String::new();
    let mut first = true;
    let mut i: usize = 0;
    while i < 5
        invariant
            i <= 5,
            items@ == hand_items(*h, i as int),
            first <==> items@.len() == 0,
        decreases 5 - i,
    {
        let count = h.0[i];
        if count > 0 {
            let ghost prev = items@;
            if !first {
                items.append(" ");
            }
            push_decimal(&mut items, count as u64);
            items.append("x");
            items.append(card_abbrev_str(i));
            proof {
                lemma_decimal_nonempty(count as nat);
                if prev.len() == 0 {
                    assert(items@ =~= decimal(count as nat) + "x"@ + card_abbrev(i as int));
                } else {
                    assert(items@ =~= prev + " "@ + (decimal(count as nat) + "x"@ + card_abbrev(i as int)));
                }
            }
            first = false;
        }
        i = i + 1;
    }
    if first {
        out.append("(none)");
    } else {
        out.append(items.as_str());
    }
}

impl PlayerId {
    /// The seat as `P0` to `P3`.
    pub fn text(&self) -> (s: String)
        ensures
            s@ == player_word(*self),
    {
        let mut s = String::new();
        push_player(&mut s, *self);
        assert(s@ =~= player_word(*self));
        s
    }
}

impl Terrain {
    /// The word printed for this terrain.
    pub fn text(&self) -> (s: String)
        ensures
            s@ == terrain_word(*self),
    {
        String::from_str(board_terrain_word(*self))
    }
}

impl Resource {
    /// The name of this resource.
    pub fn text(&self) -> (s: String)
        ensures
            s@ == resource_word(*self),
    {
        String::from_str(resource_str(*self))
    }
}

impl Port {
    /// The harbor's rate, as `3:1` or `2:1 Ore`.
    pub fn text(&self) -> (s: String)
        ensures
            s@ == port_word(*self),
    {
        match self {
            Port::ThreeToOne => String::from_str("3:1"),
            Port::TwoToOne(r) => {
                let mut s = String::from_str("2:1 ");
                s.append(resource_str(*r));
                s
            },
        }
    }
}

impl ResourceBank {
    /// The five counts, as `[B:1 L:0 O:2 G:0 W:3]`.
    pub fn text(&self) -> (s: String)
        ensures
            s@ == bank_word(*self),
    {
        let mut s = String::new();
        push_bank(&mut s, self);
        assert(s@ =~= bank_word(*self));
        s
    }
}

impl DevelopmentCard {
    /// The name of this card.
    pub fn text(&self) -> (s: String)
        ensures
            s@ == card_word(*self),
    {
        match self {
            DevelopmentCard::Knight => String::from_str("Knight"),
            DevelopmentCard::VictoryPoint => String::from_str("VP"),
            DevelopmentCard::RoadBuilding => String::from_str("RoadBuild"),
            DevelopmentCard::YearOfPlenty => String::from_str("YoP"),
            DevelopmentCard::Monopoly => String::from_str("Monopoly"),
        }
    }
}

impl DevCardHand {
    /// The held kinds with their counts, as `2xKn 1xMo`, or `(none)`.
    pub fn text(&self) -> (s: String)
        ensures
            s@ == hand_word(*self),
    {
        let mut s = String::new();
        push_hand(&mut s, self);
        assert(s@ =~= hand_word(*self));
        s
    }
}

pub fn push_action(out: &mut String, a: Action)
    ensures
        final(out)@ == old(out)@ + action_word(a),
{
    let ghost start = out@;
    match a {
        Action::PlaceSettlement(v) => {
            out.append("Settlement@v");
            push_decimal(out, v.0 as u64);
        },
        Action::PlaceRoad(e) => {
            out.append("Road@e");
            push_decimal(out, e.0 as u64);
        },
        Action::BuildCity(v) => {
            out.append("City@v");
            push_decimal(out, v.0 as u64);
        },
        Action::BuyDevelopmentCard => out.append("BuyDevCard"),
        Action::PlayKnight => out.append("PlayKnight"),
        Action::PlayRoadBuilding => out.append("PlayRoadBuilding"),
        Action::PlayYearOfPlenty(r1, r2) => {
            out.append("YoP(");
            out.append(resource_str(r1));
            out.append(",");
            out.append(resource_str(r2));
            out.append(")");
        },
        Action::PlayMonopoly(r) => {
            out.append("Monopoly(");
            out.append(resource_str(r));
            out.append(")");
        },
        Action::RollDice => out.append("RollDice"),
        Action::MoveRobber(t) => {
            out.append("Robber->t");
            push_decimal(out, t.0 as u64);
        },
        Action::StealFrom(p) => {
            out.append("Steal(");
            push_player(out, p);
            out.append(")");
        },
        Action::StealFromNone => out.append("StealNone"),
        Action::DiscardResource(r) => {
            out.append("Discard(");
            out.append(resource_str(r));
            out.append(")");
        },
        Action::BankTrade { give, receive } => {
            out.append("Trade(");
            out.append(resource_str(give));
            out.append("->");
            out.append(resource_str(receive));
            out.append(")");
        },
        Action::EndTurn => out.append("EndTurn"),
    }
    assert(out@ =~= start + action_word(a));
}

pub fn push_phase(out: &mut String, p: &Phase)
    ensures
        final(out)@ == old(out)@ + phase_word(*p),
{
    let ghost start = out@;
    match p {
        Phase::SetupSettlement { player, round } => {
            out.append("Setup R");
            push_decimal(out, *round as u64);
            out.append(": ");
            push_player(out, *player);
            out.append(" place settlement");
        },
        Phase::SetupRoad { player, round, .. } => {
            out.append("Setup R");
            push_decimal(out, *round as u64);
            out.append(": ");
            push_player(out, *player);
            out.append(" place road");
        },
        Phase::PreRoll => out.append("PreRoll"),
        Phase::ChanceRoll => out.append("Dice"),
        Phase::Discard { active, .. } => {
            push_player(out, *active);
            out.append(" must discard");
        },
        Phase::MoveRobber => out.append("Move robber"),
        Phase::Steal { .. } => out.append("Steal"),
        Phase::Main => out.append("Main"),
        Phase::RoadBuilding { roads_left } => {
            out.append("RoadBuilding(");
            push_decimal(out, *roads_left as u64);
            out.append(" left)");
        },
        Phase::GameOver { winner } => {
            out.append("Game Over: ");
            push_player(out, *winner);
            out.append(" wins");
        },
    }
    assert(out@ =~= start + phase_word(*p));
}

impl Action {
    /// The action as the log prints it, as `Road@e12` or `Trade(Ore->Wool)`.
    pub fn text(&self) -> (s: String)
        ensures
            s@ == action_word(*self),
    {
        let mut s = String::new();
        push_action(&mut s, *self);
        assert(s@ =~= action_word(*self));
        s
    }
}

impl Phase {
    /// The phase as the status line prints it.
    pub fn text(&self) -> (s: String)
        ensures
            s@ == phase_word(*self),
    {
        let mut s = String::new();
        push_phase(&mut s, self);
        assert(s@ =~= phase_word(*self));
        s
    }
}

impl Player {
    /// The seat, hand, development cards and knights played.
    pub fn text(&self) -> (s: String)
        ensures
            s@ == player_summary(*self),
    {
        let mut s = String::new();
        push_player(&mut s, self.id);
        s.append("  ");
        push_bank(&mut s, &self.resources);
        s.append("  ·  dev [");
        push_hand(&mut s, &self.dev_cards);
        s.append("]  ·  ");
        push_decimal(&mut s, self.played_knights as u64);
        s.append(" knights played");
        assert(s@ =~= player_summary(*self));
        s
    }
}

} // verus!
