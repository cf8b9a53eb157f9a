//! Pieces of the text rendering of the board: terrain words, tile faces, the
//! geometry of the hex rows, and per-player piece counts.

use vstd::prelude::*;
use crate::board::{Edge, Terrain, Tile, Vertex};
use crate::game::{
    acting, cities_on, la_owner, lemma_building_count_bound, lemma_road_count_bound, lr_owner, roads_on,
    settlements_on, victory_points_of, Game,
};
use crate::text::{
    align_center, align_left, align_right, bank_word, decimal, hand_word, phase_word, player_word,
    push_bank, push_center, push_decimal, push_hand, push_left, push_phase, push_player, push_right,
    push_times, times,
};
use crate::types::PlayerId;

verus! {

/// Columns inside one tile box.
pub const TILE_INNER_W: usize = 12;

/// Columns between adjacent tile boxes.
pub const TILE_GAP: usize = 2;

/// The word printed for a terrain on the board.
pub open spec fn terrain_word(t: Terrain) -> Seq<char> {
    match t {
        Terrain::Desert => "Desert"@,
        Terrain::Hills => "Hills"@,
        Terrain::Forest => "Forest"@,
        Terrain::Mountains => "Mtns"@,
        Terrain::Fields => "Fields"@,
        Terrain::Pasture => "Pasture"@,
    }
}

pub fn board_terrain_word(t: Terrain) -> (s: &'static str)
    ensures
        s@ == terrain_word(t),
{
    match t {
        Terrain::Desert => "Desert",
        Terrain::Hills => "Hills",
        Terrain::Forest => "Forest",
        Terrain::Mountains => "Mtns",
        Terrain::Fields => "Fields",
        Terrain::Pasture => "Pasture",
    }
}

/// Columns from one tile box to the next: the box with its borders, and the
/// gap.
pub fn hex_tile_stride() -> (n: usize)
    ensures
        n == 2 + TILE_INNER_W + TILE_GAP,
{
    (2 + TILE_INNER_W) + TILE_GAP
}

/// The left offset of each of the five rows of the honeycomb: rows of four
/// sit half a stride in from the row of five, rows of three a full stride.
pub fn hex_row_starts(stride: usize) -> (r: [usize; 5])
    ensures
        r@ == seq![stride, stride / 2, 0usize, stride / 2, stride],
{
    let half = stride / 2;
    let r = [stride, half, 0, half, stride];
    assert(r@ =~= seq![stride, stride / 2, 0usize, stride / 2, stride]);
    r
}

/// The character of decimal digit `d`.
pub open spec fn digit_char(d: int) -> char {
    (48 + d) as char
}

/// A number written with at least two digits.
pub open spec fn number_text(n: u8) -> Seq<char> {
    let k = n as int;
    if k < 100 {
        seq![digit_char(k / 10), digit_char(k % 10)]
    } else {
        seq![digit_char(k / 100), digit_char((k / 10) % 10), digit_char(k % 10)]
    }
}

/// The text inside a tile box: the terrain and its number, and a dot where
/// the robber stands.
pub open spec fn face_text(tile: Tile, robber_here: bool) -> Seq<char> {
    if tile.terrain == Terrain::Desert {
        if robber_here {
            "Desert ●"@
        } else {
            "Desert"@
        }
    } else {
        terrain_word(tile.terrain) + " "@ + number_text(tile.number) + if robber_here {
            "●"@
        } else {
            Seq::<char>::empty()
        }
    }
}

pub fn digit_str(d: u8) -> (s: &'static str)
    requires
        d < 10,
    ensures
        s@ == seq![digit_char(d as int)],
{
    proof {
        reveal_strlit("0");
        reveal_strlit("1");
        reveal_strlit("2");
        reveal_strlit("3");
        reveal_strlit("4");
        reveal_strlit("5");
        reveal_strlit("6");
        reveal_strlit("7");
        reveal_strlit("8");
        reveal_strlit("9");
    }
    let s = match d {
        0 => "0",
        1 => "1",
        2 => "2",
        3 => "3",
        4 => "4",
        5 => "5",
        6 => "6",
        7 => "7",
        8 => "8",
        _ => "9",
    };
    assert(s@ =~= seq![digit_char(d as int)]);
    s
}

pub fn tile_face_text(tile: &Tile, robber_here: bool) -> (s: String)
    ensures
        s@ == face_text(*tile, robber_here),
{
    if tile.terrain == Terrain::Desert {
        if robber_here {
            String::from_str("Desert ●")
        } else {
            String::from_str("Desert")
        }
    } else {
        let n = tile.number;
        let mut s = String::from_str(board_terrain_word(tile.terrain));
        s.append(" ");
        let ghost head = s@;
        if n >= 100 {
            s.append(digit_str(n / 100));
        }
        s.append(digit_str((n / 10) % 10));
        s.append(digit_str(n % 10));
        proof {
            assert(s@.subrange(head.len() as int, s@.len() as int) =~= number_text(n));
            assert(s@ =~= head + number_text(n));
        }
        if robber_here {
            s.append("●");
        }
        proof {
            assert(s@ =~= face_text(*tile, robber_here));
        }
        s
    }
}

impl Game {
    /// How many settlements, cities and roads `pid` has on the board.
    pub fn pieces_on_board(&self, pid: PlayerId) -> (c: (u8, u8, u8))
        ensures
            c.0 == settlements_on(self.board.vertices@, pid, 54),
            c.1 == cities_on(self.board.vertices@, pid, 54),
            c.2 == roads_on(self.board.edges@, pid, 72),
    {
        let mut settlements: u8 = 0;
        let mut cities: u8 = 0;
        let mut v: usize = 0;
        while v < 54
            invariant
                v <= 54,
                settlements == settlements_on(self.board.vertices@, pid, v as int),
                cities == cities_on(self.board.vertices@, pid, v as int),
            decreases 54 - v,
        {
            proof {
                lemma_building_count_bound(self.board.vertices@, pid, v as int);
            }
            match self.board.vertices[v] {
                Vertex::Settlement(p) => {
                    if p == pid {
                        settlements = settlements + 1;
                    }
                },
                Vertex::City(p) => {
                    if p == pid {
                        cities = cities + 1;
                    }
                },
                Vertex::Empty => {},
            }
            v = v + 1;
        }
        let mut roads: u8 = 0;
        let mut e: usize = 0;
        while e < 72
            invariant
                e <= 72,
                roads == roads_on(self.board.edges@, pid, e as int),
            decreases 72 - e,
        {
            proof {
                lemma_road_count_bound(self.board.edges@, pid, e as int);
            }
            match self.board.edges[e] {
                Edge::Road(p) => {
                    if p == pid {
                        roads = roads + 1;
                    }
                },
                Edge::Empty => {},
            }
            e = e + 1;
        }
        (settlements, cities, roads)
    }
}

/// A horizontal rule of `n` columns.
pub open spec fn rule(n: nat) -> Seq<char> {
    times("─"@, n)
}

/// Columns inside the frame of the status line.
pub open spec fn frame_width() -> nat {
    94
}

/// Columns of blank before the left edge of the honeycomb.
pub open spec fn board_indent() -> nat {
    10
}

/// The first tile of each row of the honeycomb.
pub open spec fn row_first(r: int) -> int {
    if r == 0 {
        0
    } else if r == 1 {
        3
    } else if r == 2 {
        7
    } else if r == 3 {
        12
    } else {
        16
    }
}

/// The number of tiles in each row of the honeycomb.
pub open spec fn row_size(r: int) -> int {
    if r == 0 || r == 4 {
        3
    } else if r == 1 || r == 3 {
        4
    } else {
        5
    }
}

/// Turn, acting seat and phase.
pub open spec fn status_word(g: Game) -> Seq<char> {
    "Turn "@ + align_right(decimal(g.turn_number as nat), 3) + "  ·  "@ + player_word(acting(g)) + "  ·  "@
        + phase_word(g.phase)
}

/// The framed status line and the heading of the board.
pub open spec fn header_text(g: Game) -> Seq<char> {
    "╭"@ + rule(frame_width()) + "╮\n"@ + "│"@ + align_center(status_word(g), frame_width()) + "│\n"@
        + "╰"@ + rule(frame_width()) + "╯\n"@ + "\n"@ + "  Board\n"@ + "  "@ + rule(
        (frame_width() - 2) as nat,
    ) + "\n"@
}

/// One of the three lines of the box of tile `t`: its top, its face, its
/// bottom.
pub open spec fn box_part(g: Game, t: int, part: int) -> Seq<char> {
    if part == 0 {
        "┌"@ + rule(TILE_INNER_W as nat) + "┐"@
    } else if part == 1 {
        "│"@ + align_center(face_text(g.board.tiles[t], g.board.robber.0 == t), TILE_INNER_W as nat) + "│"@
    } else {
        "└"@ + rule(TILE_INNER_W as nat) + "┘"@
    }
}

/// One line of the boxes of tiles `first..first + n`, side by side.
pub open spec fn row_part(g: Game, first: int, n: int, part: int) -> Seq<char>
    decreases n,
{
    if n <= 0 {
        Seq::empty()
    } else if n == 1 {
        box_part(g, first, part)
    } else {
        row_part(g, first, n - 1, part) + times(" "@, TILE_GAP as nat) + box_part(g, first + n - 1, part)
    }
}

/// The blank before row `r` of the honeycomb.
pub open spec fn row_pad(r: int) -> Seq<char> {
    times(" "@, board_indent()) + times(
        " "@,
        (if r == 0 || r == 4 {
            16int
        } else if r == 1 || r == 3 {
            8int
        } else {
            0int
        }) as nat,
    )
}

/// The three lines of row `r` of the honeycomb, after a blank line for every
/// row but the first.
pub open spec fn row_text(g: Game, r: int) -> Seq<char> {
    (if r > 0 {
        "\n"@
    } else {
        Seq::empty()
    }) + row_pad(r) + row_part(g, row_first(r), row_size(r), 0) + "\n"@ + row_pad(r) + row_part(
        g,
        row_first(r),
        row_size(r),
        1,
    ) + "\n"@ + row_pad(r) + row_part(g, row_first(r), row_size(r), 2) + "\n"@
}

/// The first `n` rows of the honeycomb.
pub open spec fn board_rows(g: Game, n: int) -> Seq<char>
    decreases n,
{
    if n <= 0 {
        Seq::empty()
    } else {
        board_rows(g, n - 1) + row_text(g, n - 1)
    }
}

/// The awards `p` holds.
pub open spec fn award_word(g: Game, p: PlayerId) -> Seq<char> {
    let road = lr_owner(g) == Some(p);
    let army = la_owner(g) == Some(p);
    if road && army {
        "longest road · largest army"@
    } else if road {
        "longest road"@
    } else if army {
        "largest army"@
    } else {
        "—"@
    }
}

/// The pieces of `p` on the board and in supply.
pub open spec fn pieces_word(g: Game, p: PlayerId) -> Seq<char> {
    let pl = g.players[p.0 as int];
    "on[S:"@ + decimal(settlements_on(g.board.vertices@, p, 54) as nat) + " C:"@ + decimal(
        cities_on(g.board.vertices@, p, 54) as nat,
    ) + " R:"@ + decimal(roads_on(g.board.edges@, p, 72) as nat) + "] sup[S:"@ + decimal(
        pl.settlements_left as nat,
    ) + " C:"@ + decimal(pl.cities_left as nat) + " R:"@ + decimal(pl.roads_left as nat) + "]"@
}

/// The line of the player in seat `i`: score, awards, hand, cards, pieces.
pub open spec fn player_row(g: Game, i: int) -> Seq<char> {
    let p = g.players[i];
    "    "@ + align_right(player_word(p.id), 3) + "   "@ + align_right(
        decimal(victory_points_of(g, p.id) as nat),
        2,
    ) + " vp   "@ + align_left(award_word(g, p.id), 22) + "  "@ + bank_word(p.resources) + "  ·  ["@
        + hand_word(p.dev_cards) + "]  ·  "@ + pieces_word(g, p.id) + "\n"@
}

/// The lines of the players in seats `0..n`.
pub open spec fn player_rows(g: Game, n: int) -> Seq<char>
    decreases n,
{
    if n <= 0 {
        Seq::empty()
    } else {
        player_rows(g, n - 1) + player_row(g, n - 1)
    }
}

/// The whole game as text: the framed status line, the board as rows of
/// tile boxes, the players, and the bank.
pub open spec fn game_text(g: Game) -> Seq<char> {
    header_text(g) + board_rows(g, 5) + "\n"@ + "  Players\n"@ + "  "@ + rule((frame_width() - 2) as nat)
        + "\n"@ + player_rows(g, 4) + "\n"@ + "  Bank "@ + bank_word(g.board.bank)
        + "  ·  development deck: "@ + decimal(g.board.dev_card_deck.cards().len()) + " cards\n"@
}

fn push_header(out: &mut String, g: &Game, w: usize)
    requires
        w == frame_width(),
    ensures
        final(out)@ == old(out)@ + header_text(*g),
{
    let ghost start = out@;
    let mut status = String::from_str("Turn ");
    let turn = decimal_text_u16(g.turn_number);
    push_right(&mut status, turn.as_str(), 3);
    status.append("  ·  ");
    push_player(&mut status, g.acting_player());
    status.append("  ·  ");
    push_phase(&mut status, &g.phase);
    assert(status@ =~= status_word(*g));
    out.append("╭");
    push_times(out, "─", w);
    out.append("╮\n");
    out.append("│");
    push_center(out, status.as_str(), w);
    out.append("│\n");
    out.append("╰");
    push_times(out, "─", w);
    out.append("╯\n");
    out.append("\n");
    out.append("  Board\n");
    out.append("  ");
    push_times(out, "─", w - 2);
    out.append("\n");
    assert(out@ =~= start + header_text(*g));
}

fn decimal_text_u16(n: u16) -> (s: String)
    ensures
        s@ == decimal(n as nat),
{
    crate::text::decimal_text(n as u64)
}

#[verifier::rlimit(60)]
fn push_row(out: &mut String, g: &Game, r: usize, indent: usize)
    requires
        r < 5,
        indent == board_indent(),
    ensures
        final(out)@ == old(out)@ + row_text(*g, r as int),
{
    let ghost start = out@;
    let first: usize = if r == 0 {
        0
    } else if r == 1 {
        3
    } else if r == 2 {
        7
    } else if r == 3 {
        12
    } else {
        16
    };
    let size: usize = if r == 0 || r == 4 {
        3
    } else if r == 1 || r == 3 {
        4
    } else {
        5
    };
    let starts = hex_row_starts(hex_tile_stride());
    let mut pad = String::new();
    push_times(&mut pad, " ", indent);
    push_times(&mut pad, " ", starts[r]);
    assert(pad@ =~= row_pad(r as int));
    let mut tops = String::new();
    let mut mids = String::new();
    let mut bots = String::new();
    let mut j: usize = 0;
    while j < size
        invariant
            r < 5,
            first == row_first(r as int),
            size == row_size(r as int),
            j <= size,
            tops@ == row_part(*g, first as int, j as int, 0),
            mids@ == row_part(*g, first as int, j as int, 1),
            bots@ == row_part(*g, first as int, j as int, 2),
        decreases size - j,
    {
        let ghost (t0, m0, b0) = (tops@, mids@, bots@);
        if j > 0 {
            push_times(&mut tops, " ", TILE_GAP);
            push_times(&mut mids, " ", TILE_GAP);
            push_times(&mut bots, " ", TILE_GAP);
        }
        let t = first + j;
        let tile = &g.board.tiles[t];
        let robber_here = g.board.robber.0 as usize == t;
        let face = tile_face_text(tile, robber_here);
        tops.append("┌");
        push_times(&mut tops, "─", TILE_INNER_W);
        tops.append("┐");
        mids.append("│");
        push_center(&mut mids, face.as_str(), TILE_INNER_W);
        mids.append("│");
        bots.append("└");
        push_times(&mut bots, "─", TILE_INNER_W);
        bots.append("┘");
        proof {
            if j == 0 {
                assert(tops@ =~= row_part(*g, first as int, 1, 0));
                assert(mids@ =~= row_part(*g, first as int, 1, 1));
                assert(bots@ =~= row_part(*g, first as int, 1, 2));
            } else {
                assert(tops@ =~= row_part(*g, first as int, j + 1, 0));
                assert(mids@ =~= row_part(*g, first as int, j + 1, 1));
                assert(bots@ =~= row_part(*g, first as int, j + 1, 2));
            }
        }
        j = j + 1;
    }
    if r > 0 {
        out.append("\n");
    }
    let ghost lead = out@;
    out.append(pad.as_str());
    out.append(tops.as_str());
    out.append("\n");
    out.append(pad.as_str());
    out.append(mids.as_str());
    out.append("\n");
    out.append(pad.as_str());
    out.append(bots.as_str());
    out.append("\n");
    assert(out@ =~= start + row_text(*g, r as int));
}

fn push_award(out: &mut String, g: &Game, p: PlayerId)
    ensures
        final(out)@ == old(out)@ + align_left(award_word(*g, p), 22),
{
    let road = g.longest_road_owner() == Some(p);
    let army = g.largest_army_owner() == Some(p);
    let word = if road && army {
        "longest road · largest army"
    } else if road {
        "longest road"
    } else if army {
        "largest army"
    } else {
        "—"
    };
    push_left(out, word, 22);
}

fn push_pieces(out: &mut String, g: &Game, p: PlayerId)
    requires
        p.0 < 4,
    ensures
        final(out)@ == old(out)@ + pieces_word(*g, p),
{
    let ghost start = out@;
    let (settlements, cities, roads) = g.pieces_on_board(p);
    let pl = &g.players[p.0 as usize];
    out.append("on[S:");
    push_decimal(out, settlements as u64);
    out.append(" C:");
    push_decimal(out, cities as u64);
    out.append(" R:");
    push_decimal(out, roads as u64);
    out.append("] sup[S:");
    push_decimal(out, pl.settlements_left as u64);
    out.append(" C:");
    push_decimal(out, pl.cities_left as u64);
    out.append(" R:");
    push_decimal(out, pl.roads_left as u64);
    out.append("]");
    assert(out@ =~= start + pieces_word(*g, p));
}

#[verifier::rlimit(60)]
fn push_player_row(out: &mut String, g: &Game, i: usize)
    requires
        i < 4,
        g.players[i as int].id.0 < 4,
        victory_points_of(*g, g.players[i as int].id) <= 255,
    ensures
        final(out)@ == old(out)@ + player_row(*g, i as int),
{
    let ghost start = out@;
    let p = &g.players[i];
    let vp = g.victory_points(p.id);
    let seat = p.id.text();
    let score = crate::text::decimal_text(vp as u64);
    out.append("    ");
    push_right(out, seat.as_str(), 3);
    out.append("   ");
    push_right(out, score.as_str(), 2);
    out.append(" vp   ");
    push_award(out, g, p.id);
    out.append("  ");
    push_bank(out, &p.resources);
    out.append("  ·  [");
    push_hand(out, &p.dev_cards);
    out.append("]  ·  ");
    push_pieces(out, g, p.id);
    out.append("\n");
    assert(out@ =~= start + player_row(*g, i as int));
}

impl Game {
    /// The game as text for the terminal: the framed status line, the board
    /// as rows of tile boxes, each player's score, awards, hand, cards and
    /// pieces, and the bank.
    #[verifier::rlimit(60)]
    pub fn text(&self) -> (s: String)
        requires
            forall|i: int|
                0 <= i < 4 ==> (#[trigger] self.players[i]).id.0 < 4 && victory_points_of(
                    *self,
                    self.players[i].id,
                ) <= 255,
        ensures
            s@ == game_text(*self),
    {
        let stride = hex_tile_stride();
        let board_graphic_w = 5 * stride - TILE_GAP;
        let indent: usize = 4;
        let mut w: usize = 72;
        if board_graphic_w + indent + 8 > w {
            w = board_graphic_w + indent + 8;
        }
        if board_graphic_w + 16 > w {
            w = board_graphic_w + 16;
        }
        let center_slack = w - (indent + board_graphic_w);
        let origin = indent + center_slack / 2;
        let mut s = String::new();
        push_header(&mut s, self, w);
        let ghost after_header = s@;
        let mut r: usize = 0;
        while r < 5
            invariant
                r <= 5,
                origin == board_indent(),
                s@ == after_header + board_rows(*self, r as int),
            decreases 5 - r,
        {
            push_row(&mut s, self, r, origin);
            r = r + 1;
            proof {
                assert(s@ =~= after_header + board_rows(*self, r as int));
            }
        }
        s.append("\n");
        s.append("  Players\n");
        s.append("  ");
        push_times(&mut s, "─", w - 2);
        s.append("\n");
        let ghost before_players = s@;
        let mut i: usize = 0;
        while i < 4
            invariant
                i <= 4,
                s@ == before_players + player_rows(*self, i as int),
                forall|k: int|
                    0 <= k < 4 ==> (#[trigger] self.players[k]).id.0 < 4 && victory_points_of(
                        *self,
                        self.players[k].id,
                    ) <= 255,
            decreases 4 - i,
        {
            push_player_row(&mut s, self, i);
            i = i + 1;
            proof {
                assert(s@ =~= before_players + player_rows(*self, i as int));
            }
        }
        s.append("\n");
        s.append("  Bank ");
        push_bank(&mut s, &self.board.bank);
        s.append("  ·  development deck: ");
        push_decimal(&mut s, self.board.dev_card_deck.remaining() as u64);
        s.append(" cards\n");
        assert(s@ =~= game_text(*self));
        s
    }
}

} // verus!
