use vstd::prelude::*;
use crate::board::{brandubh_piece, Board};
use crate::game_state::{step, RepetitionTracker, ShortPlayRecord};
use crate::pieces::{Piece, PieceType, Side};
use crate::play::Play;
use crate::rules::Ruleset;
use crate::tiles::{posn, Axis, Tile};

verus! {

/// Why a play was refused.
#[derive(Debug, Copy, Clone, PartialEq, Eq, Structural)]
pub enum InvalidMove {
    /// The game is already over.
    GameOver,
    /// The play does not move at all.
    Stationary,
    /// The play starts or ends off the board.
    OutOfBounds,
    /// No piece stands on the tile the play starts from.
    NoPiece,
    /// The piece belongs to the side that is not to move.
    WrongSide,
    /// A piece stands between the start and the end of the play.
    Blocked,
    /// A piece stands on the tile the play ends on.
    Occupied,
    /// The piece may not end a move on the throne.
    ThroneForbidden,
    /// The piece may not end a move on a corner.
    CornerForbidden,
}

/// How a side won.
#[derive(Debug, Copy, Clone, PartialEq, Eq, Structural)]
pub enum WinReason {
    KingCaptured,
    KingEscaped,
    Repetition,
    NoPlays,
}

/// Why a game was drawn.
#[derive(Debug, Copy, Clone, PartialEq, Eq, Structural)]
pub enum DrawReason {
    Repetition,
    NoPlays,
}

/// How a game ended.
#[derive(Debug, Copy, Clone, PartialEq, Eq, Structural)]
pub enum GameOutcome {
    Win(Side, WinReason),
    Draw(DrawReason),
}

/// What an accepted play did: the tiles whose pieces it captured, and how the game ended if
/// the play ended it.
#[derive(Debug, Clone, PartialEq, Eq)]
pub struct PlayOutcome {
    pub captures: Vec<Tile>,
    pub game_outcome: Option<GameOutcome>,
}

/// One entry of a game's history.
#[derive(Debug, Clone)]
pub struct PlayRecord {
    pub side: Side,
    pub play: Play,
    pub outcome: PlayOutcome,
}

/// Row step of each of the four directions: up, down, left, right.
pub open spec fn dr(i: int) -> int {
    if i == 0 {
        -1
    } else if i == 1 {
        1
    } else {
        0
    }
}

/// Column step of each of the four directions: up, down, left, right.
pub open spec fn dc(i: int) -> int {
    if i == 2 {
        -1
    } else if i == 3 {
        1
    } else {
        0
    }
}

pub open spec fn in_range(b: &Board, r: int, c: int) -> bool {
    0 <= r < b.size() && 0 <= c < b.size()
}

pub open spec fn tile_of(r: int, c: int) -> Tile {
    Tile { row: r as u8, col: c as u8 }
}

/// What stands at row `r`, column `c` (nothing off the board).
pub open spec fn occ(b: &Board, r: int, c: int) -> Option<Piece> {
    if in_range(b, r, c) {
        b.at(tile_of(r, c))
    } else {
        None
    }
}

/// The sign of a play's displacement.
pub open spec fn sign(play: Play) -> int {
    if play.displacement < 0 {
        -1
    } else {
        1
    }
}

/// Row of the tile `k` steps along the play from its origin.
pub open spec fn along_row(play: Play, k: int) -> int {
    match play.axis {
        Axis::Vertical => play.from.row + sign(play) * k,
        Axis::Horizontal => play.from.row as int,
    }
}

/// Column of the tile `k` steps along the play from its origin.
pub open spec fn along_col(play: Play, k: int) -> int {
    match play.axis {
        Axis::Vertical => play.from.col as int,
        Axis::Horizontal => play.from.col + sign(play) * k,
    }
}

pub open spec fn distance_of(play: Play) -> int {
    if play.displacement < 0 {
        -play.displacement
    } else {
        play.displacement as int
    }
}

/// No piece stands strictly between the origin and the destination of the play.
pub open spec fn path_clear(b: &Board, play: Play) -> bool {
    forall|k: int|
        0 < k < distance_of(play) ==> (#[trigger] occ(b, along_row(play, k), along_col(play, k))) is None
}

/// Whether the side may make the play on the board, and if not, the first rule it breaks.
pub open spec fn legality(b: &Board, rules: Ruleset, side: Side, play: Play) -> Result<Piece, InvalidMove> {
    if play.displacement == 0 {
        Err(InvalidMove::Stationary)
    } else if !play.wf() || !b.on_board(play.from) || !b.on_board(play.dest()) {
        Err(InvalidMove::OutOfBounds)
    } else {
        match b.at(play.from) {
            None => Err(InvalidMove::NoPiece),
            Some(p) => if p.side != side {
                Err(InvalidMove::WrongSide)
            } else if !path_clear(b, play) {
                Err(InvalidMove::Blocked)
            } else if b.at(play.dest()) is Some {
                Err(InvalidMove::Occupied)
            } else if b.is_throne_spec(play.dest()) && !rules.may_occupy_throne(p) {
                Err(InvalidMove::ThroneForbidden)
            } else if b.is_corner_spec(play.dest()) && rules.corners_king_only && p.piece_type
                != PieceType::King {
                Err(InvalidMove::CornerForbidden)
            } else {
                Ok(p)
            },
        }
    }
}

/// What stands at row `r`, column `c` once the piece `p` has moved from `from` to `to`.
pub open spec fn look(b: &Board, from: Tile, to: Tile, p: Piece, r: int, c: int) -> Option<Piece> {
    if !in_range(b, r, c) {
        None
    } else if r == to.row && c == to.col {
        Some(p)
    } else if r == from.row && c == from.col {
        None
    } else {
        b.at(tile_of(r, c))
    }
}

/// An empty tile that the rules make hostile: a corner, or the throne.
pub open spec fn special_hostile(b: &Board, rules: Ruleset, r: int, c: int) -> bool {
    ||| rules.hostility.corners && (r == 0 || r + 1 == b.size()) && (c == 0 || c + 1 == b.size())
    ||| rules.hostility.empty_throne && b.size() % 2 == 1 && r == b.size() / 2 && c == b.size()
        / 2
}

/// Whether the tile at row `r`, column `c` is hostile to a piece of side `victim` once the
/// move is made: it holds an enemy piece, or it is an empty hostile special tile.
pub open spec fn hostile(
    b: &Board,
    rules: Ruleset,
    from: Tile,
    to: Tile,
    p: Piece,
    victim: Side,
    r: int,
    c: int,
) -> bool {
    in_range(b, r, c) && match look(b, from, to, p, r, c) {
        Some(q) => q.side != victim,
        None => special_hostile(b, rules, r, c),
    }
}

pub open spec fn hostile_count(
    b: &Board,
    rules: Ruleset,
    from: Tile,
    to: Tile,
    p: Piece,
    victim: Side,
    r: int,
    c: int,
) -> int {
    (if hostile(b, rules, from, to, p, victim, r - 1, c) { 1int } else { 0int }) + (if hostile(
        b,
        rules,
        from,
        to,
        p,
        victim,
        r + 1,
        c,
    ) { 1int } else { 0int }) + (if hostile(b, rules, from, to, p, victim, r, c - 1) {
        1int
    } else {
        0int
    }) + (if hostile(b, rules, from, to, p, victim, r, c + 1) { 1int } else { 0int })
}

/// The tile is the throne or next to it.
pub open spec fn near_throne(b: &Board, r: int, c: int) -> bool {
    let m = (b.size() / 2) as int;
    &&& b.size() % 2 == 1
    &&& (r == m && c == m) || (r == m && (c == m - 1 || c == m + 1)) || (c == m && (r == m - 1
        || r == m + 1))
}

/// Whether the move of `p` by `side` to `to` captures the piece next to `to` in direction
/// `i`: an enemy piece stands there and is flanked by a hostile tile beyond it, or, for a
/// strong king, surrounded by hostile tiles on all four sides.
pub open spec fn captures_dir(
    b: &Board,
    rules: Ruleset,
    side: Side,
    from: Tile,
    to: Tile,
    p: Piece,
    i: int,
) -> bool {
    let nr = to.row + dr(i);
    let nc = to.col + dc(i);
    match look(b, from, to, p, nr, nc) {
        None => false,
        Some(q) => q.side != side && if q.piece_type == PieceType::King && rules.king_is_strong(
            near_throne(b, nr, nc),
        ) {
            hostile_count(b, rules, from, to, p, q.side, nr, nc) >= 4
        } else {
            hostile(b, rules, from, to, p, q.side, nr + dr(i), nc + dc(i))
        },
    }
}

/// The tile `u` is next to `to` in direction `i`.
pub open spec fn is_neighbour(to: Tile, i: int, u: Tile) -> bool {
    u.row == to.row + dr(i) && u.col == to.col + dc(i)
}

/// The piece on tile `u` is captured by the move.
pub open spec fn captured(b: &Board, rules: Ruleset, side: Side, from: Tile, to: Tile, p: Piece, u: Tile) -> bool {
    exists|i: int| 0 <= i < 4 && is_neighbour(to, i, u) && captures_dir(b, rules, side, from, to, p, i)
}

/// The piece on tile `u` is taken off the board by the move: captured between hostile tiles,
/// or in a shield wall.
pub open spec fn removed(b: &Board, rules: Ruleset, side: Side, from: Tile, to: Tile, p: Piece, u: Tile) -> bool {
    captured(b, rules, side, from, to, p, u) || shield_captured(b, rules, side, from, to, p, u)
}

/// The move captures the king.
pub open spec fn king_captured(b: &Board, rules: Ruleset, side: Side, from: Tile, to: Tile, p: Piece) -> bool {
    exists|i: int|
        0 <= i < 4 && captures_dir(b, rules, side, from, to, p, i) && (look(
            b,
            from,
            to,
            p,
            to.row + dr(i),
            to.col + dc(i),
        )->Some_0).piece_type == PieceType::King
}

/// The outcome of a play that captured the king or brought it to a corner, or that left its
/// side at the repetition limit; `None` where none of these happened.
pub open spec fn decisive_outcome(
    rules: Ruleset,
    side: Side,
    king_taken: bool,
    escaped: bool,
    reps: nat,
) -> Option<GameOutcome> {
    if king_taken {
        Some(GameOutcome::Win(side, WinReason::KingCaptured))
    } else if escaped {
        Some(GameOutcome::Win(Side::Defender, WinReason::KingEscaped))
    } else if reps >= rules.repetition_limit {
        if rules.repetition_loses {
            Some(GameOutcome::Win(side.other_spec(), WinReason::Repetition))
        } else {
            Some(GameOutcome::Draw(DrawReason::Repetition))
        }
    } else {
        None
    }
}

/// Row of the tile `j` steps from `t` in direction `i`.
pub open spec fn step_r(t: Tile, i: int, j: int) -> int {
    if i == 0 {
        t.row - j
    } else if i == 1 {
        t.row + j
    } else {
        t.row as int
    }
}

/// Column of the tile `j` steps from `t` in direction `i`.
pub open spec fn step_c(t: Tile, i: int, j: int) -> int {
    if i == 2 {
        t.col - j
    } else if i == 3 {
        t.col + j
    } else {
        t.col as int
    }
}

/// Direction `i` from `to` runs along an edge of the board that `to` lies on.
pub open spec fn edge_dir(b: &Board, to: Tile, i: int) -> bool {
    if i < 2 {
        to.col == 0 || to.col + 1 == b.size()
    } else {
        to.row == 0 || to.row + 1 == b.size()
    }
}

/// A piece that can stand in a shield wall: a defender other than the king.
pub open spec fn wall_piece(q: Option<Piece>) -> bool {
    q matches Some(x) && x.side == Side::Defender && x.piece_type != PieceType::King
}

/// Once the move is made, the `m` tiles after `to` in direction `i` hold a line of at least
/// two wall pieces, closed by an attacker.
pub open spec fn wall(b: &Board, from: Tile, to: Tile, p: Piece, i: int, m: int) -> bool {
    &&& m >= 2
    &&& forall|j: int|
        1 <= j <= m ==> wall_piece(#[trigger] look(b, from, to, p, step_r(to, i, j), step_c(to, i, j)))
    &&& look(b, from, to, p, step_r(to, i, m + 1), step_c(to, i, m + 1)) matches Some(x) && x.side
        == Side::Attacker
}

/// The piece on tile `u` falls in a shield wall captured by the move: the rules allow it, an
/// attacker moved onto an edge, and `u` lies in a wall running from it along that edge.
pub open spec fn shield_captured(
    b: &Board,
    rules: Ruleset,
    side: Side,
    from: Tile,
    to: Tile,
    p: Piece,
    u: Tile,
) -> bool {
    &&& rules.shield_wall
    &&& side == Side::Attacker
    &&& exists|i: int, m: int, j: int|
        0 <= i < 4 && edge_dir(b, to, i) && #[trigger] wall(b, from, to, p, i, m) && 1 <= j <= m
            && u == #[trigger] tile_of(step_r(to, i, j), step_c(to, i, j))
}

/// The piece on tile `u` lies in a wall from `to` in one of the first `n` directions.
#[verifier::opaque]
pub open spec fn shield_before(b: &Board, from: Tile, to: Tile, p: Piece, n: int, u: Tile) -> bool {
    exists|i: int, m: int, j: int|
        0 <= i < n && edge_dir(b, to, i) && #[trigger] wall(b, from, to, p, i, m) && 1 <= j <= m
            && u == #[trigger] tile_of(step_r(to, i, j), step_c(to, i, j))
}

/// The piece on tile `u` is captured by the move from one of the first `n` directions.
#[verifier::opaque]
pub open spec fn captured_before(
    b: &Board,
    rules: Ruleset,
    side: Side,
    from: Tile,
    to: Tile,
    p: Piece,
    n: int,
    u: Tile,
) -> bool {
    exists|i: int| 0 <= i < n && is_neighbour(to, i, u) && captures_dir(b, rules, side, from, to, p, i)
}

/// The move captures the king from one of the first `n` directions.
#[verifier::opaque]
pub open spec fn king_before(b: &Board, rules: Ruleset, side: Side, from: Tile, to: Tile, p: Piece, n: int) -> bool {
    exists|i: int|
        0 <= i < n && captures_dir(b, rules, side, from, to, p, i) && (look(
            b,
            from,
            to,
            p,
            to.row + dr(i),
            to.col + dc(i),
        )->Some_0).piece_type == PieceType::King
}

proof fn lemma_before_step(
    b: &Board,
    rules: Ruleset,
    side: Side,
    from: Tile,
    to: Tile,
    p: Piece,
    n: int,
)
    requires
        0 <= n,
    ensures
        forall|u: Tile|
            #[trigger] captured_before(b, rules, side, from, to, p, n + 1, u) == (captured_before(
                b,
                rules,
                side,
                from,
                to,
                p,
                n,
                u,
            ) || (is_neighbour(to, n, u) && captures_dir(b, rules, side, from, to, p, n))),
        king_before(b, rules, side, from, to, p, n + 1) == (king_before(b, rules, side, from, to, p, n) || (
        captures_dir(b, rules, side, from, to, p, n) && (look(
            b,
            from,
            to,
            p,
            to.row + dr(n),
            to.col + dc(n),
        )->Some_0).piece_type == PieceType::King)),
        forall|u: Tile| !#[trigger] captured_before(b, rules, side, from, to, p, 0, u),
        !king_before(b, rules, side, from, to, p, 0),
        forall|u: Tile|
            #[trigger] captured_before(b, rules, side, from, to, p, 4, u) == captured(
                b,
                rules,
                side,
                from,
                to,
                p,
                u,
            ),
        king_before(b, rules, side, from, to, p, 4) == king_captured(b, rules, side, from, to, p),
{
    reveal(captured_before);
    reveal(king_before);
    assert forall|u: Tile|
        #[trigger] captured_before(b, rules, side, from, to, p, n + 1, u) == (captured_before(
            b,
            rules,
            side,
            from,
            to,
            p,
            n,
            u,
        ) || (is_neighbour(to, n, u) && captures_dir(b, rules, side, from, to, p, n))) by {
        if captured_before(b, rules, side, from, to, p, n + 1, u) {
            let i = choose|i: int|
                0 <= i < n + 1 && is_neighbour(to, i, u) && captures_dir(b, rules, side, from, to, p, i);
            if i < n {
                assert(captured_before(b, rules, side, from, to, p, n, u));
            }
        }
    }
    if king_before(b, rules, side, from, to, p, n + 1) {
        let i = choose|i: int|
            0 <= i < n + 1 && captures_dir(b, rules, side, from, to, p, i) && (look(
                b,
                from,
                to,
                p,
                to.row + dr(i),
                to.col + dc(i),
            )->Some_0).piece_type == PieceType::King;
        if i < n {
            assert(king_before(b, rules, side, from, to, p, n));
        }
    }
}

proof fn lemma_push_contains<T>(s: Seq<T>, x: T)
    ensures
        forall|v: T| #[trigger] s.push(x).contains(v) <==> (s.contains(v) || v == x),
{
    assert forall|v: T| #[trigger] s.push(x).contains(v) <==> (s.contains(v) || v == x) by {
        if s.push(x).contains(v) && v != x {
            let j = choose|j: int| 0 <= j < s.push(x).len() && s.push(x)[j] == v;
            assert(s[j] == v);
        }
        if s.contains(v) {
            let j = choose|j: int| 0 <= j < s.len() && s[j] == v;
            assert(s.push(x)[j] == v);
        }
        if v == x {
            assert(s.push(x)[s.len() as int] == v);
        }
    }
}

/// How the game ends when the side to move after `mover` has no legal play.
pub open spec fn no_plays_outcome(rules: Ruleset, mover: Side) -> GameOutcome {
    if rules.no_plays_loses {
        GameOutcome::Win(mover, WinReason::NoPlays)
    } else {
        GameOutcome::Draw(DrawReason::NoPlays)
    }
}

/// The side has at least one legal play on the board.
pub open spec fn has_legal_play(b: &Board, rules: Ruleset, side: Side) -> bool {
    exists|q: Play| #[trigger] legality(b, rules, side, q) is Ok
}

pub open spec fn axis_index(a: Axis) -> int {
    match a {
        Axis::Vertical => 0,
        Axis::Horizontal => 1,
    }
}

/// A game in progress or finished: the board, the rules, whose turn it is, the repetition
/// bookkeeping, the history of plays and, once it is over, its outcome.
pub struct Game {
    board: Board,
    rules: Ruleset,
    side_to_move: Side,
    tracker: RepetitionTracker,
    history: Vec<PlayRecord>,
    outcome: Option<GameOutcome>,
}

fn dir(i: u8) -> (r: (i16, i16))
    requires
        i < 4,
    ensures
        r.0 == dr(i as int),
        r.1 == dc(i as int),
{
    if i == 0 {
        (-1, 0)
    } else if i == 1 {
        (1, 0)
    } else if i == 2 {
        (0, -1)
    } else {
        (0, 1)
    }
}

fn occ_exec(b: &Board, r: i16, c: i16) -> (res: Option<Piece>)
    requires
        b.wf(),
    ensures
        res == occ(b, r as int, c as int),
{
    let d = b.dimension() as i16;
    if r < 0 || c < 0 || r >= d || c >= d {
        None
    } else {
        b.piece_at(Tile { row: r as u8, col: c as u8 })
    }
}

fn look_exec(b: &Board, from: Tile, to: Tile, p: Piece, r: i16, c: i16) -> (res: Option<Piece>)
    requires
        b.wf(),
    ensures
        res == look(b, from, to, p, r as int, c as int),
{
    let d = b.dimension() as i16;
    if r < 0 || c < 0 || r >= d || c >= d {
        None
    } else if r == to.row as i16 && c == to.col as i16 {
        Some(p)
    } else if r == from.row as i16 && c == from.col as i16 {
        None
    } else {
        b.piece_at(Tile { row: r as u8, col: c as u8 })
    }
}

fn hostile_exec(
    b: &Board,
    rules: &Ruleset,
    from: Tile,
    to: Tile,
    p: Piece,
    victim: Side,
    r: i16,
    c: i16,
) -> (res: bool)
    requires
        b.wf(),
    ensures
        res == hostile(b, *rules, from, to, p, victim, r as int, c as int),
{
    let d = b.dimension() as i16;
    if r < 0 || c < 0 || r >= d || c >= d {
        return false;
    }
    match look_exec(b, from, to, p, r, c) {
        Some(q) => q.side != victim,
        None => {
            (rules.hostility.corners && (r == 0 || r + 1 == d) && (c == 0 || c + 1 == d)) || (
            rules.hostility.empty_throne && d % 2 == 1 && r == d / 2 && c == d / 2)
        },
    }
}

fn captures_dir_exec(
    b: &Board,
    rules: &Ruleset,
    side: Side,
    from: Tile,
    to: Tile,
    p: Piece,
    i: u8,
) -> (res: bool)
    requires
        b.wf(),
        b.on_board(to),
        i < 4,
    ensures
        res == captures_dir(b, *rules, side, from, to, p, i as int),
{
    let (sr, sc) = dir(i);
    let nr = to.row as i16 + sr;
    let nc = to.col as i16 + sc;
    match look_exec(b, from, to, p, nr, nc) {
        None => false,
        Some(q) => {
            if q.side == side {
                return false;
            }
            let far = hostile_exec(b, rules, from, to, p, q.side, nr + sr, nc + sc);
            match q.piece_type {
                PieceType::King => {
                    let d = b.dimension() as i16;
                    let m = d / 2;
                    let near = d % 2 == 1 && ((nr == m && nc == m) || (nr == m && (nc == m - 1
                        || nc == m + 1)) || (nc == m && (nr == m - 1 || nr == m + 1)));
                    let mut count: u8 = 0;
                    if hostile_exec(b, rules, from, to, p, q.side, nr - 1, nc) {
                        count = count + 1;
                    }
                    if hostile_exec(b, rules, from, to, p, q.side, nr + 1, nc) {
                        count = count + 1;
                    }
                    if hostile_exec(b, rules, from, to, p, q.side, nr, nc - 1) {
                        count = count + 1;
                    }
                    if hostile_exec(b, rules, from, to, p, q.side, nr, nc + 1) {
                        count = count + 1;
                    }
                    rules.king_strength(count, far, near)
                },
                _ => far,
            }
        },
    }
}

impl Game {
    /// The game's invariant: a board of the size the rules ask for, sound rules, and while
    /// the game goes on, both repetition counters under the limit.
    pub closed spec fn wf(&self) -> bool {
        &&& self.board.wf()
        &&& self.board.size() == self.rules.dimension
        &&& self.rules.valid()
        &&& self.outcome is None ==> {
            &&& self.tracker@.reps(Side::Attacker) < self.rules.repetition_limit
            &&& self.tracker@.reps(Side::Defender) < self.rules.repetition_limit
        }
    }

    pub closed spec fn board_spec(&self) -> Board {
        self.board
    }

    pub closed spec fn rules_spec(&self) -> Ruleset {
        self.rules
    }

    pub closed spec fn side_spec(&self) -> Side {
        self.side_to_move
    }

    pub closed spec fn outcome_spec(&self) -> Option<GameOutcome> {
        self.outcome
    }

    pub closed spec fn reps_spec(&self, side: Side) -> nat {
        self.tracker@.reps(side)
    }

    pub closed spec fn tracker_spec(&self) -> crate::game_state::RepetitionState {
        self.tracker@
    }

    pub closed spec fn history_len(&self) -> nat {
        self.history@.len()
    }

    /// Start a game under the given rules, on the given board or else on the rules' own
    /// starting board (Brandubh's for a 7x7 board, an empty board otherwise). Fails where
    /// the rules are not sound or the board is not of the size they ask for.
    pub fn new(rules: Ruleset, board: Option<Board>) -> (r: Option<Game>)
        requires
            board matches Some(b) ==> b.wf(),
        ensures
            r is Some <==> rules.valid() && (board matches Some(b) ==> b.size() == rules.dimension),
            r matches Some(g) ==> {
                &&& g.wf()
                &&& g.rules_spec() == rules
                &&& g.side_spec() == Side::Attacker
                &&& g.outcome_spec() is None
                &&& g.history_len() == 0
                &&& g.reps_spec(Side::Attacker) == 0
                &&& g.reps_spec(Side::Defender) == 0
                &&& (board matches Some(b) ==> g.board_spec() == b)
                &&& (board is None && rules.dimension == 7 ==> forall|t: Tile|
                    g.board_spec().on_board(t) ==> #[trigger] g.board_spec().at(t)
                        == brandubh_piece(t))
            },
    {
        if !rules.is_valid() {
            return None;
        }
        let board = match board {
            Some(b) => {
                if b.dimension() != rules.dimension {
                    return None;
                }
                b
            },
            None => {
                if rules.dimension == 7 {
                    Board::brandubh_start()
                } else {
                    Board::new(rules.dimension)
                }
            },
        };
        Some(Game {
            board,
            rules,
            side_to_move: Side::Attacker,
            tracker: RepetitionTracker::new(),
            history: Vec::new(),
            outcome: None,
        })
    }

    /// The board as it stands.
    pub fn board(&self) -> (r: &Board)
        ensures
            *r == self.board_spec(),
    {
        &self.board
    }

    /// The rules the game is played by.
    pub fn rules(&self) -> (r: &Ruleset)
        ensures
            *r == self.rules_spec(),
    {
        &self.rules
    }

    /// The side whose turn it is.
    pub fn side_to_move(&self) -> (r: Side)
        ensures
            r == self.side_spec(),
    {
        self.side_to_move
    }

    /// How the game ended, or `None` while it goes on.
    pub fn outcome(&self) -> (r: Option<GameOutcome>)
        ensures
            r == self.outcome_spec(),
    {
        self.outcome
    }

    /// The repetition count of the given side.
    pub fn repetitions(&self, side: Side) -> (r: usize)
        ensures
            r == self.reps_spec(side),
    {
        self.tracker.get_repetitions(side)
    }

    /// The plays made so far, oldest first.
    pub fn history(&self) -> (r: &Vec<PlayRecord>)
        ensures
            r@.len() == self.history_len(),
    {
        &self.history
    }

    /// The legal plays of the piece on the given tile, for the side to move; none once the
    /// game is over.
    pub fn legal_plays(&self, tile: Tile) -> (r: Vec<Play>)
        requires
            self.wf(),
        ensures
            forall|q: Play|
                r@.contains(q) <==> (self.outcome_spec() is None && q.from == tile && legality(
                    &self.board_spec(),
                    self.rules_spec(),
                    self.side_spec(),
                    q,
                ) is Ok),
    {
        if self.outcome.is_some() {
            return Vec::new();
        }
        legal_plays_from(&self.board, &self.rules, self.side_to_move, tile)
    }

    /// All legal plays of the given side on the current board.
    pub fn legal_plays_for_side(&self, side: Side) -> (r: Vec<Play>)
        requires
            self.wf(),
        ensures
            forall|q: Play|
                r@.contains(q) <==> legality(&self.board_spec(), self.rules_spec(), side, q) is Ok,
    {
        all_legal_plays(&self.board, &self.rules, side)
    }

    /// Make a play for the side to move. An illegal play, or any play once the game is over,
    /// is refused and changes nothing. An accepted play moves the piece, removes the pieces it
    /// captures (all judged on the board as it stands right after the move), records the play
    /// for the repetition rule, hands the turn over and decides whether the game is over.
    pub fn apply(&mut self, play: Play) -> (r: Result<PlayOutcome, InvalidMove>)
        requires
            old(self).wf(),
        ensures
            final(self).wf(),
            old(self).outcome_spec() is Some ==> r == Err::<PlayOutcome, InvalidMove>(
                InvalidMove::GameOver,
            ),
            old(self).outcome_spec() is None ==> match legality(
                &old(self).board_spec(),
                old(self).rules_spec(),
                old(self).side_spec(),
                play,
            ) {
                Err(e) => r == Err::<PlayOutcome, InvalidMove>(e),
                Ok(_) => r is Ok,
            },
            r is Err ==> *final(self) == *old(self),
            r matches Ok(o) ==> {
                let b = old(self).board_spec();
                let rules = old(self).rules_spec();
                let side = old(self).side_spec();
                let from = play.from;
                let to = play.dest();
                let p = b.at(from)->Some_0;
                let nb = final(self).board_spec();
                &&& nb.size() == b.size()
                &&& forall|u: Tile|
                    nb.on_board(u) ==> #[trigger] nb.at(u) == if removed(
                        &b,
                        rules,
                        side,
                        from,
                        to,
                        p,
                        u,
                    ) {
                        None
                    } else {
                        look(&b, from, to, p, u.row as int, u.col as int)
                    }
                &&& forall|u: Tile|
                    #[trigger] o.captures@.contains(u) <==> removed(&b, rules, side, from, to, p, u)
                &&& final(self).rules_spec() == rules
                &&& final(self).side_spec() == side.other_spec()
                &&& final(self).tracker_spec() == step(
                    old(self).tracker_spec(),
                    ShortPlayRecord { side, play, captures: o.captures@.len() > 0 },
                )
                &&& final(self).history_len() == old(self).history_len() + 1
                &&& o.game_outcome == final(self).outcome_spec()
                &&& final(self).outcome_spec() == match decisive_outcome(
                    rules,
                    side,
                    king_captured(&b, rules, side, from, to, p),
                    p.piece_type == PieceType::King && b.is_corner_spec(to),
                    final(self).reps_spec(side),
                ) {
                    Some(x) => Some(x),
                    None => if has_legal_play(&nb, rules, side.other_spec()) {
                        None
                    } else {
                        Some(no_plays_outcome(rules, side))
                    },
                }
            },
    {
        if self.outcome.is_some() {
            return Err(InvalidMove::GameOver);
        }
        let side = self.side_to_move;
        let p = match check_play(&self.board, &self.rules, side, play) {
            Ok(p) => p,
            Err(e) => return Err(e),
        };
        let ghost b0 = self.board;
        let from = play.from;
        let to = play.to();
        let mut caps: Vec<Tile> = Vec::new();
        let mut king_taken = false;
        let mut i: u8 = 0;
        proof {
            b0.lemma_wf_size();
            lemma_before_step(&b0, self.rules, side, from, to, p, 0);
        }
        while i < 4
            invariant
                self.board == b0,
                b0.wf(),
                b0.on_board(to),
                b0.on_board(from),
                to == play.dest(),
                i <= 4,
                forall|k: int| 0 <= k < caps@.len() ==> b0.on_board(#[trigger] caps@[k]),
                forall|u: Tile|
                    #[trigger] caps@.contains(u) <==> captured_before(
                        &b0,
                        self.rules,
                        side,
                        from,
                        to,
                        p,
                        i as int,
                        u,
                    ),
                king_taken == king_before(&b0, self.rules, side, from, to, p, i as int),
            decreases 4 - i,
        {
            proof {
                b0.lemma_wf_size();
                lemma_before_step(&b0, self.rules, side, from, to, p, i as int);
            }
            if captures_dir_exec(&self.board, &self.rules, side, from, to, p, i) {
                let (sr, sc) = dir(i);
                let nr = to.row as i16 + sr;
                let nc = to.col as i16 + sc;
                let q = look_exec(&self.board, from, to, p, nr, nc);
                assert(in_range(&b0, nr as int, nc as int));
                let u = Tile { row: nr as u8, col: nc as u8 };
                assert(is_neighbour(to, i as int, u));
                assert(forall|v: Tile| is_neighbour(to, i as int, v) ==> v == u);
                let ghost before = caps@;
                caps.push(u);
                proof {
                    lemma_push_contains(before, u);
                }
                assert forall|k: int| 0 <= k < caps@.len() implies b0.on_board(#[trigger] caps@[k]) by {
                    if k < before.len() {
                        assert(caps@[k] == before[k]);
                    }
                }
                match q {
                    Some(piece) => match piece.piece_type {
                        PieceType::King => {
                            king_taken = true;
                        },
                        _ => {},
                    },
                    None => {},
                }
            }
            i = i + 1;
        }
        proof {
            lemma_before_step(&b0, self.rules, side, from, to, p, 4);
        }
        let mut walls = shield_wall_captures(&self.board, &self.rules, side, from, to, p);
        let ghost custodial = caps@;
        let ghost wall_tiles = walls@;
        caps.append(&mut walls);
        proof {
            assert(caps@ == custodial + wall_tiles);
            assert forall|u: Tile|
                #[trigger] caps@.contains(u) <==> removed(&b0, self.rules, side, from, to, p, u) by {
                if caps@.contains(u) {
                    let k = choose|k: int| 0 <= k < caps@.len() && caps@[k] == u;
                    if k < custodial.len() {
                        assert(custodial[k] == u);
                        assert(custodial.contains(u));
                    } else {
                        assert(wall_tiles[k - custodial.len()] == u);
                        assert(wall_tiles.contains(u));
                    }
                }
                if custodial.contains(u) {
                    let k = choose|k: int| 0 <= k < custodial.len() && custodial[k] == u;
                    assert(caps@[k] == u);
                }
                if wall_tiles.contains(u) {
                    let k = choose|k: int| 0 <= k < wall_tiles.len() && wall_tiles[k] == u;
                    assert(caps@[custodial.len() + k] == u);
                }
            }
            assert forall|k: int| 0 <= k < caps@.len() implies b0.on_board(#[trigger] caps@[k]) by {
                if k < custodial.len() {
                    assert(caps@[k] == custodial[k]);
                } else {
                    assert(caps@[k] == wall_tiles[k - custodial.len()]);
                }
            }
            assert(self.tracker@.reps(side) < self.rules.repetition_limit);
        }
        self.board.remove(from);
        self.board.place(to, p);
        assert(from != to);
        assert forall|u: Tile| self.board.on_board(u) implies #[trigger] self.board.at(u) == if caps@.subrange(
            0,
            0,
        ).contains(u) {
            None
        } else {
            look(&b0, from, to, p, u.row as int, u.col as int)
        } by {
            assert(tile_of(u.row as int, u.col as int) == u);
        }
        let mut k: usize = 0;
        while k < caps.len()
            invariant
                self.board.wf(),
                self.board.size() == b0.size(),
                self.tracker == old(self).tracker,
                self.rules == old(self).rules,
                self.side_to_move == side,
                self.outcome is None,
                self.history == old(self).history,
                b0.wf(),
                0 <= k <= caps@.len(),
                forall|j: int| 0 <= j < caps@.len() ==> b0.on_board(#[trigger] caps@[j]),
                forall|u: Tile|
                    self.board.on_board(u) ==> #[trigger] self.board.at(u) == if caps@.subrange(
                        0,
                        k as int,
                    ).contains(u) {
                        None
                    } else {
                        look(&b0, from, to, p, u.row as int, u.col as int)
                    },
            decreases caps@.len() - k,
        {
            let ghost prev = caps@.subrange(0, k as int);
            let ghost next = caps@.subrange(0, k + 1);
            assert(next =~= prev.push(caps@[k as int]));
            let x = caps[k];
            assert(b0.on_board(caps@[k as int]));
            self.board.remove(x);
            proof {
                lemma_push_contains(prev, x);
            }
            k = k + 1;
        }
        assert(caps@.subrange(0, caps@.len() as int) =~= caps@);
        let any = caps.len() > 0;
        self.tracker.track_play(side, play, any);
        self.side_to_move = side.other();
        let escaped = match p.piece_type {
            PieceType::King => self.board.is_corner(to),
            _ => false,
        };
        let reps = self.tracker.get_repetitions(side);
        let outcome = if king_taken {
            Some(GameOutcome::Win(side, WinReason::KingCaptured))
        } else if escaped {
            Some(GameOutcome::Win(Side::Defender, WinReason::KingEscaped))
        } else if reps >= self.rules.repetition_limit {
            if self.rules.repetition_loses {
                Some(GameOutcome::Win(side.other(), WinReason::Repetition))
            } else {
                Some(GameOutcome::Draw(DrawReason::Repetition))
            }
        } else {
            let next = side.other();
            let plays = all_legal_plays(&self.board, &self.rules, next);
            if plays.len() > 0 {
                assert(plays@.contains(plays@[0]));
                None
            } else {
                proof {
                    if has_legal_play(&self.board, self.rules, next) {
                        let q = choose|q: Play| legality(&self.board, self.rules, next, q) is Ok;
                        assert(plays@.contains(q));
                    }
                }
                if self.rules.no_plays_loses {
                    Some(GameOutcome::Win(side, WinReason::NoPlays))
                } else {
                    Some(GameOutcome::Draw(DrawReason::NoPlays))
                }
            }
        };
        self.outcome = outcome;
        assert(self.tracker@.reps(side.other_spec()) == old(self).tracker@.reps(side.other_spec()));
        let record = PlayRecord {
            side,
            play,
            outcome: PlayOutcome { captures: caps.clone(), game_outcome: outcome },
        };
        self.history.push(record);
        Ok(PlayOutcome { captures: caps, game_outcome: outcome })
    }

}

/// Check the play against the rules; on success return the moving piece.
fn check_play(b: &Board, rules: &Ruleset, side: Side, play: Play) -> (r: Result<Piece, InvalidMove>)
    requires
        b.wf(),
    ensures
        r == legality(b, *rules, side, play),
{
    if play.displacement == 0 {
        return Err(InvalidMove::Stationary);
    }
    let d = b.dimension() as i32;
    let origin = play.from.posn_on_axis(play.axis) as i32;
    if !b.contains_tile(play.from) || origin + (play.displacement as i32) < 0 || origin
        + (play.displacement as i32) >= d {
        return Err(InvalidMove::OutOfBounds);
    }
    let neg = play.displacement < 0;
    let dist: i16 = if neg {
        -play.displacement
    } else {
        play.displacement
    };
    let to = play.to();
    let p = match b.piece_at(play.from) {
        None => return Err(InvalidMove::NoPiece),
        Some(p) => p,
    };
    if p.side != side {
        return Err(InvalidMove::WrongSide);
    }
    let sgn: i16 = if neg {
        -1
    } else {
        1
    };
    let mut k: i16 = 1;
    while k < dist
        invariant
            b.wf(),
            b.at(play.from) == Some(p),
            p.side == side,
            b.on_board(play.from),
            b.on_board(to),
            to == play.dest(),
            play.wf(),
            dist == distance_of(play),
            sgn == sign(play),
            1 <= k <= dist,
            forall|j: int|
                0 < j < k ==> (#[trigger] occ(b, along_row(play, j), along_col(play, j))) is None,
        decreases dist - k,
    {
        let (r, c) = match play.axis {
            Axis::Vertical => (play.from.row as i16 + sgn * k, play.from.col as i16),
            Axis::Horizontal => (play.from.row as i16, play.from.col as i16 + sgn * k),
        };
        if occ_exec(b, r, c).is_some() {
            assert(r == along_row(play, k as int) && c == along_col(play, k as int));
            assert(occ(b, along_row(play, k as int), along_col(play, k as int)) is Some);
            assert(!path_clear(b, play));
            return Err(InvalidMove::Blocked);
        }
        k = k + 1;
    }
    if !b.is_empty(to) {
        return Err(InvalidMove::Occupied);
    }
    if b.is_throne(to) && !rules.can_occupy_throne(p) {
        return Err(InvalidMove::ThroneForbidden);
    }
    if b.is_corner(to) && rules.corner_restricted_to_king() {
        match p.piece_type {
            PieceType::King => {},
            _ => return Err(InvalidMove::CornerForbidden),
        }
    }
    Ok(p)
}


/// The legal plays of the side from the given tile.
fn legal_plays_from(b: &Board, rules: &Ruleset, side: Side, t: Tile) -> (r: Vec<Play>)
    requires
        b.wf(),
    ensures
        forall|q: Play| r@.contains(q) <==> (q.from == t && legality(b, *rules, side, q) is Ok),
{
    let mut r: Vec<Play> = Vec::new();
    let n = b.dimension() as i16;
    let mut ax: u8 = 0;
    while ax < 2
        invariant
            b.wf(),
            n == b.size(),
            1 <= n <= 26,
            ax <= 2,
            forall|q: Play|
                r@.contains(q) <==> (q.from == t && legality(b, *rules, side, q) is Ok
                    && axis_index(q.axis) < ax),
        decreases 2 - ax,
    {
        let axis = if ax == 0 {
            Axis::Vertical
        } else {
            Axis::Horizontal
        };
        let mut d: i16 = 1 - n;
        while d < n
            invariant
                b.wf(),
                n == b.size(),
                1 <= n <= 26,
                ax < 2,
                axis_index(axis) == ax,
                1 - n <= d <= n,
                forall|q: Play|
                    r@.contains(q) <==> (q.from == t && legality(b, *rules, side, q) is Ok && (
                    axis_index(q.axis) < ax || (axis_index(q.axis) == ax && q.displacement < d))),
            decreases n - d,
        {
            let q = Play { from: t, axis, displacement: d };
            let ok = check_play(b, rules, side, q).is_ok();
            let ghost before = r@;
            if ok {
                r.push(q);
            }
            assert forall|x: Play|
                r@.contains(x) <==> (x.from == t && legality(b, *rules, side, x) is Ok && (
                axis_index(x.axis) < ax || (axis_index(x.axis) == ax && x.displacement < d
                    + 1))) by {
                if r@.contains(x) && x != q {
                    let k = choose|k: int| 0 <= k < r@.len() && r@[k] == x;
                    assert(before[k] == x);
                }
                if ok && x == q {
                    assert(r@[before.len() as int] == x);
                }
                if before.contains(x) {
                    let k = choose|k: int| 0 <= k < before.len() && before[k] == x;
                    assert(r@[k] == x);
                }
                if x.from == t && axis_index(x.axis) == ax && x.displacement == d {
                    assert(x == q);
                }
            }
            d = d + 1;
        }
        assert forall|x: Play|
            r@.contains(x) <==> (x.from == t && legality(b, *rules, side, x) is Ok && axis_index(
                x.axis,
            ) < ax + 1) by {
            if x.from == t && legality(b, *rules, side, x) is Ok && axis_index(x.axis) == ax {
                assert(posn(x.from, x.axis) < n);
                assert(x.displacement < n);
            }
        }
        ax = ax + 1;
    }
    assert forall|x: Play| r@.contains(x) <==> (x.from == t && legality(b, *rules, side, x) is Ok) by {
        if legality(b, *rules, side, x) is Ok {
            assert(axis_index(x.axis) < 2);
        }
    }
    r
}

/// All legal plays of the side on the board.
fn all_legal_plays(b: &Board, rules: &Ruleset, side: Side) -> (r: Vec<Play>)
    requires
        b.wf(),
    ensures
        forall|q: Play| r@.contains(q) <==> legality(b, *rules, side, q) is Ok,
{
    let mut r: Vec<Play> = Vec::new();
    let n = b.dimension();
    let mut row: u8 = 0;
    while row < n
        invariant
            b.wf(),
            n == b.size(),
            row <= n,
            forall|q: Play|
                r@.contains(q) <==> (legality(b, *rules, side, q) is Ok && q.from.row < row),
        decreases n - row,
    {
        let mut col: u8 = 0;
        while col < n
            invariant
                b.wf(),
                n == b.size(),
                row < n,
                col <= n,
                forall|q: Play|
                    r@.contains(q) <==> (legality(b, *rules, side, q) is Ok && (q.from.row < row
                        || (q.from.row == row && q.from.col < col))),
            decreases n - col,
        {
            let t = Tile { row, col };
            let mut more = legal_plays_from(b, rules, side, t);
            let ghost before = r@;
            let ghost added = more@;
            r.append(&mut more);
            assert(r@ == before + added);
            assert forall|x: Play|
                r@.contains(x) <==> (legality(b, *rules, side, x) is Ok && (x.from.row < row || (
                x.from.row == row && x.from.col < col + 1))) by {
                if r@.contains(x) {
                    let k = choose|k: int| 0 <= k < r@.len() && r@[k] == x;
                    if k < before.len() {
                        assert(before[k] == x);
                    } else {
                        assert(added[k - before.len()] == x);
                    }
                }
                if before.contains(x) {
                    let k = choose|k: int| 0 <= k < before.len() && before[k] == x;
                    assert(r@[k] == x);
                }
                if added.contains(x) {
                    let k = choose|k: int| 0 <= k < added.len() && added[k] == x;
                    assert(r@[before.len() + k] == x);
                }
                if legality(b, *rules, side, x) is Ok && x.from.row == row && x.from.col == col {
                    assert(x.from == t);
                }
            }
            col = col + 1;
        }
        row = row + 1;
    }
    r
}


fn step_exec(to: Tile, i: u8, j: i16) -> (r: (i16, i16))
    requires
        i < 4,
        0 <= j <= 100,
    ensures
        r.0 == step_r(to, i as int, j as int),
        r.1 == step_c(to, i as int, j as int),
{
    let row = to.row as i16;
    let col = to.col as i16;
    if i == 0 {
        (row - j, col)
    } else if i == 1 {
        (row + j, col)
    } else if i == 2 {
        (row, col - j)
    } else {
        (row, col + j)
    }
}

/// The first step `k >= 1` from `to` in direction `i` that holds no wall piece once the move
/// is made.
fn wall_end(b: &Board, from: Tile, to: Tile, p: Piece, i: u8) -> (k: i16)
    requires
        b.wf(),
        b.on_board(to),
        i < 4,
    ensures
        1 <= k <= 30,
        forall|j: int|
            1 <= j < k ==> wall_piece(#[trigger] look(b, from, to, p, step_r(to, i as int, j), step_c(to, i as int, j))),
        !wall_piece(look(b, from, to, p, step_r(to, i as int, k as int), step_c(to, i as int, k as int))),
{
    proof {
        b.lemma_wf_size();
    }
    let mut k: i16 = 1;
    loop
        invariant
            b.wf(),
            b.on_board(to),
            1 <= b.size() <= 26,
            i < 4,
            1 <= k <= 28,
            forall|j: int|
                1 <= j < k ==> wall_piece(#[trigger] look(b, from, to, p, step_r(to, i as int, j), step_c(to, i as int, j))),
        decreases 28 - k,
    {
        let (r, c) = step_exec(to, i, k);
        let q = look_exec(b, from, to, p, r, c);
        let is_wall = match q {
            Some(x) => x.side == Side::Defender && match x.piece_type {
                PieceType::King => false,
                _ => true,
            },
            None => false,
        };
        if !is_wall {
            return k;
        }
        assert(in_range(b, r as int, c as int));
        k = k + 1;
    }
}

/// The defenders captured in shield walls by the move of `p` from `from` to `to` by `side`.
fn shield_wall_captures(b: &Board, rules: &Ruleset, side: Side, from: Tile, to: Tile, p: Piece) -> (r: Vec<Tile>)
    requires
        b.wf(),
        b.on_board(to),
    ensures
        forall|k: int| 0 <= k < r@.len() ==> b.on_board(#[trigger] r@[k]),
        forall|u: Tile| #[trigger] r@.contains(u) <==> shield_captured(b, *rules, side, from, to, p, u),
{
    let mut r: Vec<Tile> = Vec::new();
    if !rules.shield_wall || side != Side::Attacker {
        return r;
    }
    proof {
        b.lemma_wf_size();
        reveal(shield_before);
    }
    let d = b.dimension() as i16;
    let mut i: u8 = 0;
    while i < 4
        invariant
            b.wf(),
            b.on_board(to),
            1 <= b.size() <= 26,
            d == b.size(),
            rules.shield_wall,
            side == Side::Attacker,
            i <= 4,
            forall|k: int| 0 <= k < r@.len() ==> b.on_board(#[trigger] r@[k]),
            forall|u: Tile| #[trigger] r@.contains(u) <==> shield_before(b, from, to, p, i as int, u),
        decreases 4 - i,
    {
        let edge = if i < 2 {
            to.col == 0 || to.col as i16 + 1 == d
        } else {
            to.row == 0 || to.row as i16 + 1 == d
        };
        let k = wall_end(b, from, to, p, i);
        let (er, ec) = step_exec(to, i, k);
        let closed = match look_exec(b, from, to, p, er, ec) {
            Some(x) => x.side == Side::Attacker,
            None => false,
        };
        let ghost before = r@;
        let ghost ii = i as int;
        // Exactly one wall can run in this direction: the one that ends where the line of
        // wall pieces ends.
        proof {
            assert forall|m: int| #[trigger] wall(b, from, to, p, ii, m) implies m == k - 1 by {
                if m + 1 < k {
                    assert(wall_piece(look(b, from, to, p, step_r(to, ii, m + 1), step_c(to, ii, m + 1))));
                }
                if k <= m {
                    assert(wall_piece(look(b, from, to, p, step_r(to, ii, k as int), step_c(to, ii, k as int))));
                }
            }
        }
        if edge && closed && k - 1 >= 2 {
            assert(wall(b, from, to, p, ii, k - 1));
            let mut j: i16 = 1;
            while j < k
                invariant
                    b.wf(),
                    b.on_board(to),
                    1 <= b.size() <= 26,
                    1 <= j <= k,
                    k <= 30,
                    i < 4,
                    ii == i,
                    forall|j2: int|
                        1 <= j2 < k ==> wall_piece(#[trigger] look(b, from, to, p, step_r(to, ii, j2), step_c(to, ii, j2))),
                    forall|q: int| 0 <= q < r@.len() ==> b.on_board(#[trigger] r@[q]),
                    forall|u: Tile|
                        #[trigger] r@.contains(u) <==> (before.contains(u) || exists|j2: int|
                            1 <= j2 < j && u == #[trigger] tile_of(step_r(to, ii, j2), step_c(to, ii, j2))),
                decreases k - j,
            {
                let (tr, tc) = step_exec(to, i, j);
                assert(wall_piece(look(b, from, to, p, step_r(to, ii, j as int), step_c(to, ii, j as int))));
                assert(in_range(b, tr as int, tc as int));
                let t = Tile { row: tr as u8, col: tc as u8 };
                assert(t == tile_of(step_r(to, ii, j as int), step_c(to, ii, j as int)));
                let ghost prev = r@;
                r.push(t);
                proof {
                    reveal(shield_before);
                    lemma_push_contains(prev, t);
                    assert forall|u: Tile|
                        #[trigger] r@.contains(u) <==> (before.contains(u) || exists|j2: int|
                            1 <= j2 < j + 1 && u == #[trigger] tile_of(step_r(to, ii, j2), step_c(to, ii, j2))) by {
                        if exists|j2: int| 1 <= j2 < j + 1 && u == #[trigger] tile_of(step_r(to, ii, j2), step_c(to, ii, j2)) {
                            let j2 = choose|j2: int| 1 <= j2 < j + 1 && u == #[trigger] tile_of(step_r(to, ii, j2), step_c(to, ii, j2));
                            if j2 < j {
                                assert(prev.contains(u));
                            }
                        }
                    }
                    assert forall|q: int| 0 <= q < r@.len() implies b.on_board(#[trigger] r@[q]) by {
                        if q < prev.len() {
                            assert(r@[q] == prev[q]);
                        }
                    }
                }
                j = j + 1;
            }
            proof {
                reveal(shield_before);
                assert forall|u: Tile|
                    #[trigger] r@.contains(u) <==> shield_before(b, from, to, p, ii + 1, u) by {
                    if r@.contains(u) && !before.contains(u) {
                        let j2 = choose|j2: int| 1 <= j2 < k && u == #[trigger] tile_of(step_r(to, ii, j2), step_c(to, ii, j2));
                        assert(0 <= ii < ii + 1 && edge_dir(b, to, ii) && wall(b, from, to, p, ii, k - 1) && 1 <= j2 <= k - 1
                            && u == tile_of(step_r(to, ii, j2), step_c(to, ii, j2)));
                    }
                    if shield_before(b, from, to, p, ii + 1, u) && !shield_before(b, from, to, p, ii, u) {
                        let (i2, m, j2) = choose|i2: int, m: int, j2: int|
                            0 <= i2 < ii + 1 && edge_dir(b, to, i2) && #[trigger] wall(b, from, to, p, i2, m) && 1 <= j2 <= m
                                && u == #[trigger] tile_of(step_r(to, i2, j2), step_c(to, i2, j2));
                        if i2 < ii {
                            assert(shield_before(b, from, to, p, ii, u));
                        }
                        assert(i2 == ii);
                        assert(m == k - 1);
                        assert(1 <= j2 < k && u == tile_of(step_r(to, ii, j2), step_c(to, ii, j2)));
                    }
                    if before.contains(u) {
                        assert(shield_before(b, from, to, p, ii, u));
                        let (i2, m, j2) = choose|i2: int, m: int, j2: int|
                            0 <= i2 < ii && edge_dir(b, to, i2) && #[trigger] wall(b, from, to, p, i2, m) && 1 <= j2 <= m
                                && u == #[trigger] tile_of(step_r(to, i2, j2), step_c(to, i2, j2));
                        assert(0 <= i2 < ii + 1);
                    }
                }
            }
        } else {
            proof {
                reveal(shield_before);
                assert forall|u: Tile|
                    #[trigger] r@.contains(u) <==> shield_before(b, from, to, p, ii + 1, u) by {
                    if shield_before(b, from, to, p, ii + 1, u) {
                        let (i2, m, j2) = choose|i2: int, m: int, j2: int|
                            0 <= i2 < ii + 1 && edge_dir(b, to, i2) && #[trigger] wall(b, from, to, p, i2, m) && 1 <= j2 <= m
                                && u == #[trigger] tile_of(step_r(to, i2, j2), step_c(to, i2, j2));
                        if i2 == ii {
                            assert(m == k - 1);
                        }
                        assert(shield_before(b, from, to, p, ii, u));
                    }
                    if shield_before(b, from, to, p, ii, u) {
                        let (i2, m, j2) = choose|i2: int, m: int, j2: int|
                            0 <= i2 < ii && edge_dir(b, to, i2) && #[trigger] wall(b, from, to, p, i2, m) && 1 <= j2 <= m
                                && u == #[trigger] tile_of(step_r(to, i2, j2), step_c(to, i2, j2));
                        assert(0 <= i2 < ii + 1);
                    }
                }
            }
        }
        i = i + 1;
    }
    proof {
        reveal(shield_before);
        assert forall|u: Tile| #[trigger] r@.contains(u) <==> shield_captured(b, *rules, side, from, to, p, u) by {
            if shield_before(b, from, to, p, 4, u) {
                let (i2, m, j2) = choose|i2: int, m: int, j2: int|
                    0 <= i2 < 4 && edge_dir(b, to, i2) && #[trigger] wall(b, from, to, p, i2, m) && 1 <= j2 <= m
                        && u == #[trigger] tile_of(step_r(to, i2, j2), step_c(to, i2, j2));
                assert(shield_captured(b, *rules, side, from, to, p, u));
            }
        }
    }
    r
}

} // verus!
