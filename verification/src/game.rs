//! The capture resolver and the game state: a shared board, two teams of
//! two players, and the rule deciding which board cards a played card
//! takes.

use vstd::prelude::*;
use crate::card::{Card, CardType, rank_value};

verus! {

/// A board card may join a sum capture toward the played value `v` only if
/// its value is not exactly half of `v` and lies strictly below `v - 1`,
/// so no single sum participant can reach `v` on its own.
pub open spec fn sum_eligible(v: int, card: Card) -> bool {
    2 * rank_value(card.card_type) != v && rank_value(card.card_type) + 1 < v
}

/// True when `partial_card` may take part in a sum capture toward the
/// value of `sum_card`.
pub fn card_sum_check(sum_card: Card, partial_card: Card) -> (eligible: bool)
    ensures
        eligible == sum_eligible(rank_value(sum_card.card_type), partial_card),
{
    let sum_value = sum_card.value();
    let partial_value = partial_card.value();
    2 * partial_value != sum_value && partial_value + 1 < sum_value
}

/// What a play captures from the board: everything (an Ace), one card of
/// equal value, a pair or a triple summing to the played value, or
/// nothing.
pub enum Capture {
    Sweep,
    Single { i: int },
    Pair { i: int, j: int },
    Triple { i: int, j: int, k: int },
    Miss,
}

/// The first board slot from `start` on whose card has value `v`.
pub open spec fn find_direct(board: Seq<Card>, v: int, start: int) -> Option<int>
    decreases board.len() - start,
{
    if start < 0 || start >= board.len() {
        None
    } else if rank_value(board[start].card_type) == v {
        Some(start)
    } else {
        find_direct(board, v, start + 1)
    }
}

/// The first board slot from `start` on whose card is sum-eligible and
/// completes the partial sum to exactly `v`.
pub open spec fn find_third(board: Seq<Card>, v: int, partial: int, start: int) -> Option<int>
    decreases board.len() - start,
{
    if start < 0 || start >= board.len() {
        None
    } else if sum_eligible(v, board[start]) && partial + rank_value(board[start].card_type) == v {
        Some(start)
    } else {
        find_third(board, v, partial, start + 1)
    }
}

/// The sum search continued for a fixed first participant `i`: scanning
/// second participants from `start` on, a pair reaching exactly `v`
/// captures; a pair below `v` captures as a triple with the first
/// completing third card, if one exists; anything else moves on.
pub open spec fn find_sum_from(board: Seq<Card>, v: int, i: int, start: int) -> Capture
    decreases board.len() - start,
{
    if start < 0 || start >= board.len() {
        Capture::Miss
    } else if !sum_eligible(v, board[start]) {
        find_sum_from(board, v, i, start + 1)
    } else {
        let partial = rank_value(board[i].card_type) + rank_value(board[start].card_type);
        if partial == v {
            Capture::Pair { i, j: start }
        } else if partial < v {
            match find_third(board, v, partial, start + 1) {
                Some(k) => Capture::Triple { i, j: start, k },
                None => find_sum_from(board, v, i, start + 1),
            }
        } else {
            find_sum_from(board, v, i, start + 1)
        }
    }
}

/// The sum search: the first eligible slot from `start` on whose
/// continuation yields a pair or triple wins; a card whose continuations
/// all fail captures nothing and the scan moves on.
pub open spec fn find_sum(board: Seq<Card>, v: int, start: int) -> Capture
    decreases board.len() - start,
{
    if start < 0 || start >= board.len() {
        Capture::Miss
    } else if sum_eligible(v, board[start]) && !(find_sum_from(board, v, start, start + 1)
        is Miss) {
        find_sum_from(board, v, start, start + 1)
    } else {
        find_sum(board, v, start + 1)
    }
}

/// The capture resolution, first applicable rule winning: an Ace sweeps
/// the whole board; otherwise the first board card of equal value is
/// captured alone; otherwise the sum search decides; otherwise nothing is
/// captured. A pair that falls short of the played value and finds no
/// completing third card captures nothing — only exact matches capture.
pub open spec fn resolve(board: Seq<Card>, played: Card) -> Capture {
    if played.card_type is Ace {
        Capture::Sweep
    } else {
        let v = rank_value(played.card_type);
        match find_direct(board, v, 0) {
            Some(i) => Capture::Single { i },
            None => find_sum(board, v, 0),
        }
    }
}

/// The board after a play: captured cards leave, and a card capturing
/// nothing joins the board.
pub open spec fn new_board_after(board: Seq<Card>, played: Card) -> Seq<Card> {
    match resolve(board, played) {
        Capture::Sweep => Seq::<Card>::empty(),
        Capture::Single { i } => board.remove(i),
        Capture::Pair { i, j } => board.remove(j).remove(i),
        Capture::Triple { i, j, k } => board.remove(k).remove(j).remove(i),
        Capture::Miss => board.push(played),
    }
}

/// What a play appends to the capturing team's prize stack: the captured
/// board cards — a sweep in board order, a sum capture from the last
/// participant back to the first — followed by the played card itself.
/// A play capturing nothing yields nothing.
pub open spec fn prize_gain(board: Seq<Card>, played: Card) -> Seq<Card> {
    match resolve(board, played) {
        Capture::Sweep => board + seq![played],
        Capture::Single { i } => seq![board[i], played],
        Capture::Pair { i, j } => seq![board[j], board[i], played],
        Capture::Triple { i, j, k } => seq![board[k], board[j], board[i], played],
        Capture::Miss => Seq::<Card>::empty(),
    }
}

/// Whether the play captures anything: an Ace captures only from a
/// non-empty board, and a missed match captures nothing.
pub open spec fn captures(board: Seq<Card>, played: Card) -> bool {
    match resolve(board, played) {
        Capture::Sweep => board.len() > 0,
        Capture::Miss => false,
        _ => true,
    }
}

/// The scopa credit of a play: one when a capture leaves the board empty,
/// zero otherwise.
pub open spec fn scopa_gain(board: Seq<Card>, played: Card) -> int {
    if captures(board, played) && new_board_after(board, played).len() == 0 {
        1
    } else {
        0
    }
}

/// Where `find_direct` points: at the first slot from `start` on with
/// value `v`, or nowhere when no such slot exists.
pub proof fn lemma_find_direct_props(board: Seq<Card>, v: int, start: int)
    requires
        0 <= start <= board.len(),
    ensures
        match find_direct(board, v, start) {
            Some(i) => start <= i < board.len() && rank_value(board[i].card_type) == v && forall|
                m: int,
            |
                start <= m < i ==> rank_value(board[m].card_type) != v,
            None => forall|m: int|
                start <= m < board.len() ==> rank_value(board[m].card_type) != v,
        },
    decreases board.len() - start,
{
    if start < board.len() && rank_value(board[start].card_type) != v {
        lemma_find_direct_props(board, v, start + 1);
    }
}

/// Where `find_third` points: at a sum-eligible slot completing the
/// partial sum to exactly `v`.
pub proof fn lemma_find_third_props(board: Seq<Card>, v: int, partial: int, start: int)
    requires
        0 <= start <= board.len(),
    ensures
        match find_third(board, v, partial, start) {
            Some(k) => start <= k < board.len() && sum_eligible(v, board[k]) && partial
                + rank_value(board[k].card_type) == v,
            None => true,
        },
    decreases board.len() - start,
{
    if start < board.len() && !(sum_eligible(v, board[start]) && partial + rank_value(
        board[start].card_type,
    ) == v) {
        lemma_find_third_props(board, v, partial, start + 1);
    }
}

/// What the continued sum search yields for a fixed first participant:
/// only a pair or triple of sum-eligible cards, in ascending slot order,
/// summing exactly to `v` — or nothing.
pub proof fn lemma_find_sum_from_props(board: Seq<Card>, v: int, i: int, start: int)
    requires
        0 <= i < board.len(),
        i < start <= board.len(),
        sum_eligible(v, board[i]),
    ensures
        match find_sum_from(board, v, i, start) {
            Capture::Pair { i: i2, j } => i2 == i && start <= j < board.len() && sum_eligible(
                v,
                board[j],
            ) && rank_value(board[i].card_type) + rank_value(board[j].card_type) == v,
            Capture::Triple { i: i2, j, k } => i2 == i && start <= j < k < board.len()
                && sum_eligible(v, board[j]) && sum_eligible(v, board[k]) && rank_value(
                board[i].card_type,
            ) + rank_value(board[j].card_type) + rank_value(board[k].card_type) == v,
            Capture::Miss => true,
            _ => false,
        },
    decreases board.len() - start,
{
    if start < board.len() {
        if sum_eligible(v, board[start]) {
            let partial = rank_value(board[i].card_type) + rank_value(board[start].card_type);
            if partial == v {
            } else if partial < v {
                lemma_find_third_props(board, v, partial, start + 1);
                if find_third(board, v, partial, start + 1) is None {
                    lemma_find_sum_from_props(board, v, i, start + 1);
                }
            } else {
                lemma_find_sum_from_props(board, v, i, start + 1);
            }
        } else {
            lemma_find_sum_from_props(board, v, i, start + 1);
        }
    }
}

/// What the sum search yields: only a pair or triple of sum-eligible
/// cards, in ascending slot order, summing exactly to `v` — or nothing.
pub proof fn lemma_find_sum_props(board: Seq<Card>, v: int, start: int)
    requires
        0 <= start <= board.len(),
    ensures
        match find_sum(board, v, start) {
            Capture::Pair { i, j } => start <= i < j < board.len() && sum_eligible(v, board[i])
                && sum_eligible(v, board[j]) && rank_value(board[i].card_type) + rank_value(
                board[j].card_type,
            ) == v,
            Capture::Triple { i, j, k } => start <= i < j < k < board.len() && sum_eligible(
                v,
                board[i],
            ) && sum_eligible(v, board[j]) && sum_eligible(v, board[k]) && rank_value(
                board[i].card_type,
            ) + rank_value(board[j].card_type) + rank_value(board[k].card_type) == v,
            Capture::Miss => true,
            _ => false,
        },
    decreases board.len() - start,
{
    if start < board.len() {
        if sum_eligible(v, board[start]) && !(find_sum_from(board, v, start, start + 1) is Miss) {
            lemma_find_sum_from_props(board, v, start, start + 1);
        } else {
            lemma_find_sum_props(board, v, start + 1);
        }
    }
}

/// The exec mirror of `Capture`, carrying board slot indices.
#[derive(Copy, Clone, PartialEq, Eq, Structural, Debug)]
pub enum CaptureDecision {
    Sweep,
    Single { i: usize },
    Pair { i: usize, j: usize },
    Triple { i: usize, j: usize, k: usize },
    Miss,
}

pub open spec fn decision_view(decision: CaptureDecision) -> Capture {
    match decision {
        CaptureDecision::Sweep => Capture::Sweep,
        CaptureDecision::Single { i } => Capture::Single { i: i as int },
        CaptureDecision::Pair { i, j } => Capture::Pair { i: i as int, j: j as int },
        CaptureDecision::Triple { i, j, k } => Capture::Triple {
            i: i as int,
            j: j as int,
            k: k as int,
        },
        CaptureDecision::Miss => Capture::Miss,
    }
}

/// Decides what the played card captures from the board, without touching
/// either.
#[verifier::loop_isolation(false)]
pub fn resolve_capture(board: &Vec<Card>, played: Card) -> (decision: CaptureDecision)
    ensures
        decision_view(decision) == resolve(board@, played),
{
    match played.card_type {
        CardType::Ace => {
            return CaptureDecision::Sweep;
        },
        _ => {},
    }
    let v = played.value();
    let ghost vi = v as int;
    let len = board.len();
    // first rule with a chance: the first board card of equal value
    let mut i: usize = 0;
    while i < len
        invariant
            len == board@.len(),
            i <= len,
            !(played.card_type is Ace),
            vi == rank_value(played.card_type),
            v == vi,
            find_direct(board@, vi, 0) == find_direct(board@, vi, i as int),
        decreases len - i,
    {
        if board[i].value() == v {
            return CaptureDecision::Single { i };
        }
        i += 1;
    }
    // no direct match anywhere: the sum search decides
    let mut i: usize = 0;
    while i < len
        invariant
            len == board@.len(),
            i <= len,
            !(played.card_type is Ace),
            vi == rank_value(played.card_type),
            v == vi,
            find_direct(board@, vi, 0) is None,
            find_sum(board@, vi, 0) == find_sum(board@, vi, i as int),
        decreases len - i,
    {
        if card_sum_check(played, board[i]) {
            let val_1 = board[i].value();
            let mut j = i + 1;
            while j < len
                invariant
                    len == board@.len(),
                    i < len,
                    i < j <= len,
                    !(played.card_type is Ace),
                    vi == rank_value(played.card_type),
                    v == vi,
                    sum_eligible(vi, board@[i as int]),
                    val_1 == rank_value(board@[i as int].card_type),
                    find_sum_from(board@, vi, i as int, i as int + 1) == find_sum_from(
                        board@,
                        vi,
                        i as int,
                        j as int,
                    ),
                decreases len - j,
            {
                if card_sum_check(played, board[j]) {
                    proof {
                        crate::card::lemma_rank_value_bounds(board@[j as int].card_type);
                    }
                    let val_2 = val_1 + board[j].value();
                    if val_2 == v {
                        proof {
                            assert(find_sum_from(board@, vi, i as int, j as int) == Capture::Pair {
                                i: i as int,
                                j: j as int,
                            });
                            assert(find_sum(board@, vi, i as int) == Capture::Pair {
                                i: i as int,
                                j: j as int,
                            });
                        }
                        return CaptureDecision::Pair { i, j };
                    } else if val_2 < v {
                        let mut k = j + 1;
                        while k < len
                            invariant
                                len == board@.len(),
                                i < j < k,
                                j < len,
                                j < k <= len,
                                vi == rank_value(played.card_type),
                                v == vi,
                                val_2 == rank_value(board@[i as int].card_type) + rank_value(
                                    board@[j as int].card_type,
                                ),
                                val_2 < vi,
                                find_third(board@, vi, val_2 as int, j as int + 1) == find_third(
                                    board@,
                                    vi,
                                    val_2 as int,
                                    k as int,
                                ),
                            decreases len - k,
                        {
                            if card_sum_check(played, board[k]) {
                                proof {
                                    crate::card::lemma_rank_value_bounds(
                                        board@[k as int].card_type,
                                    );
                                }
                                let val_3 = val_2 + board[k].value();
                                if val_3 == v {
                                    proof {
                                        assert(find_third(board@, vi, val_2 as int, k as int)
                                            == Some(k as int));
                                        assert(find_sum_from(board@, vi, i as int, j as int)
                                            == Capture::Triple {
                                            i: i as int,
                                            j: j as int,
                                            k: k as int,
                                        });
                                        assert(find_sum(board@, vi, i as int) == Capture::Triple {
                                            i: i as int,
                                            j: j as int,
                                            k: k as int,
                                        });
                                    }
                                    return CaptureDecision::Triple { i, j, k };
                                }
                            }
                            k += 1;
                        }
                        // the pair fell short and no third card completes it:
                        // nothing is captured here, the scan moves on
                        proof {
                            assert(find_third(board@, vi, val_2 as int, j as int + 1) is None);
                        }
                    }
                }
                j += 1;
            }
            proof {
                assert(find_sum_from(board@, vi, i as int, i as int + 1) is Miss);
            }
        }
        i += 1;
    }
    CaptureDecision::Miss
}

/// Ace capture: an Ace sweeps unconditionally — the board empties and its
/// cards move to the prize together with the Ace. Sweeping a non-empty
/// board is a capture and scores exactly one scopa; an Ace on an empty
/// board captures nothing beyond itself and scores nothing.
pub proof fn lemma_ace_capture(board: Seq<Card>, played: Card)
    requires
        played.card_type is Ace,
    ensures
        resolve(board, played) == Capture::Sweep,
        new_board_after(board, played) == Seq::<Card>::empty(),
        prize_gain(board, played) == board + seq![played],
        board.len() > 0 ==> captures(board, played) && scopa_gain(board, played) == 1,
        board.len() == 0 ==> !captures(board, played) && scopa_gain(board, played) == 0,
{
}

/// Direct-match priority: when the board holds any card equal in value to
/// the played (non-Ace) card, exactly the first such card is captured,
/// alone — even if further equal cards exist — and the sum rule is never
/// consulted.
pub proof fn lemma_direct_match_priority(board: Seq<Card>, played: Card, witness: int)
    requires
        !(played.card_type is Ace),
        0 <= witness < board.len(),
        rank_value(board[witness].card_type) == rank_value(played.card_type),
    ensures
        match resolve(board, played) {
            Capture::Single { i } => 0 <= i < board.len() && rank_value(board[i].card_type)
                == rank_value(played.card_type) && (forall|m: int|
                0 <= m < i ==> rank_value(board[m].card_type) != rank_value(played.card_type))
                && new_board_after(board, played) == board.remove(i),
            _ => false,
        },
{
    lemma_find_direct_props(board, rank_value(played.card_type), 0);
}

/// Sum-match eligibility: every participant of a pair or triple capture
/// passes the eligibility filter — in particular, a board card worth
/// exactly half the played value never takes part in a sum capture — and
/// the participants' values sum exactly to the played value.
pub proof fn lemma_sum_match_eligibility(board: Seq<Card>, played: Card)
    ensures
        ({
            let v = rank_value(played.card_type);
            match resolve(board, played) {
                Capture::Pair { i, j } => 0 <= i < j < board.len() && sum_eligible(v, board[i])
                    && sum_eligible(v, board[j]) && 2 * rank_value(board[i].card_type) != v && 2
                    * rank_value(board[j].card_type) != v && rank_value(board[i].card_type)
                    + rank_value(board[j].card_type) == v,
                Capture::Triple { i, j, k } => 0 <= i < j < k < board.len() && sum_eligible(
                    v,
                    board[i],
                ) && sum_eligible(v, board[j]) && sum_eligible(v, board[k]) && 2 * rank_value(
                    board[i].card_type,
                ) != v && 2 * rank_value(board[j].card_type) != v && 2 * rank_value(
                    board[k].card_type,
                ) != v && rank_value(board[i].card_type) + rank_value(board[j].card_type)
                    + rank_value(board[k].card_type) == v,
                _ => true,
            }
        }),
{
    if !(played.card_type is Ace) {
        let v = rank_value(played.card_type);
        lemma_find_sum_props(board, v, 0);
    }
}

/// No-match fallback: a play that captures nothing leaves the board with
/// exactly one more card — its former contents unchanged in order and the
/// played card appended — and neither prize pile nor scopa count grows.
pub proof fn lemma_no_match_fallback(board: Seq<Card>, played: Card)
    requires
        resolve(board, played) is Miss,
    ensures
        new_board_after(board, played) == board.push(played),
        new_board_after(board, played).len() == board.len() + 1,
        forall|m: int| 0 <= m < board.len() ==> new_board_after(board, played)[m] == board[m],
        prize_gain(board, played) == Seq::<Card>::empty(),
        scopa_gain(board, played) == 0,
{
}

/// Scopa trigger: a capture that leaves the board empty scores exactly one
/// scopa, and any other play scores none. An empty board yields no capture
/// at all — a played non-Ace card can only join it.
pub proof fn lemma_scopa_trigger(board: Seq<Card>, played: Card)
    ensures
        captures(board, played) && new_board_after(board, played).len() == 0 ==> scopa_gain(
            board,
            played,
        ) == 1,
        !(captures(board, played) && new_board_after(board, played).len() == 0) ==> scopa_gain(
            board,
            played,
        ) == 0,
        board.len() == 0 ==> !captures(board, played),
{
}

#[derive(Copy, Clone, PartialEq, Eq, Structural, Debug)]
pub enum TeamSide {
    T1,
    T2,
}

#[derive(Copy, Clone, PartialEq, Eq, Structural, Debug)]
pub enum TeamPlayer {
    P1,
    P2,
}

/// The error of `Game::play`: the hand index does not name a card.
#[derive(Copy, Clone, PartialEq, Eq, Structural, Debug)]
pub enum PlayErr {
    IndexOutOfRange,
}

pub open spec fn other_side(side: TeamSide) -> TeamSide {
    match side {
        TeamSide::T1 => TeamSide::T2,
        TeamSide::T2 => TeamSide::T1,
    }
}

/// A team's captured cards, and how often the team cleared the board.
pub struct Prize {
    pub stack: Vec<Card>,
    pub scopa_count: usize,
}

/// Two players' hands, the team's prize pile, and its running points.
pub struct Team {
    pub p1_hand: Vec<Card>,
    pub p2_hand: Vec<Card>,
    pub prize: Prize,
    pub points: usize,
}

/// The shared board and the two teams.
pub struct Game {
    pub board: Vec<Card>,
    pub team_1: Team,
    pub team_2: Team,
}

impl Game {
    pub open spec fn spec_team(&self, side: TeamSide) -> Team {
        match side {
            TeamSide::T1 => self.team_1,
            TeamSide::T2 => self.team_2,
        }
    }

    pub open spec fn spec_hand(&self, side: TeamSide, player: TeamPlayer) -> Seq<Card> {
        match player {
            TeamPlayer::P1 => self.spec_team(side).p1_hand@,
            TeamPlayer::P2 => self.spec_team(side).p2_hand@,
        }
    }

    pub open spec fn spec_prize(&self, side: TeamSide) -> Seq<Card> {
        self.spec_team(side).prize.stack@
    }

    pub open spec fn spec_scopa(&self, side: TeamSide) -> int {
        self.spec_team(side).prize.scopa_count as int
    }

    pub open spec fn spec_points(&self, side: TeamSide) -> int {
        self.spec_team(side).points as int
    }

    /// A team can only have cleared the board as often as it captured
    /// cards, so the scopa count never outruns the prize stack.
    pub open spec fn wf(&self) -> bool {
        self.team_1.prize.scopa_count <= self.team_1.prize.stack@.len()
            && self.team_2.prize.scopa_count <= self.team_2.prize.stack@.len()
    }

    /// A game at hand start: a dealt board, four dealt hands, and nothing
    /// captured yet.
    pub fn new(
        board: Vec<Card>,
        t1_p1: Vec<Card>,
        t1_p2: Vec<Card>,
        t2_p1: Vec<Card>,
        t2_p2: Vec<Card>,
    ) -> (game: Game)
        ensures
            game.wf(),
            game.board@ == board@,
            game.spec_hand(TeamSide::T1, TeamPlayer::P1) == t1_p1@,
            game.spec_hand(TeamSide::T1, TeamPlayer::P2) == t1_p2@,
            game.spec_hand(TeamSide::T2, TeamPlayer::P1) == t2_p1@,
            game.spec_hand(TeamSide::T2, TeamPlayer::P2) == t2_p2@,
            forall|s: TeamSide| game.spec_prize(s) == Seq::<Card>::empty(),
            forall|s: TeamSide| game.spec_scopa(s) == 0,
            forall|s: TeamSide| game.spec_points(s) == 0,
    {
        Game {
            board,
            team_1: Team {
                p1_hand: t1_p1,
                p2_hand: t1_p2,
                prize: Prize { stack: Vec::new(), scopa_count: 0 },
                points: 0,
            },
            team_2: Team {
                p1_hand: t2_p1,
                p2_hand: t2_p2,
                prize: Prize { stack: Vec::new(), scopa_count: 0 },
                points: 0,
            },
        }
    }

    /// Read access to a team.
    pub fn team(&self, team_side: TeamSide) -> (team: &Team)
        ensures
            *team == self.spec_team(team_side),
    {
        match team_side {
            TeamSide::T1 => &self.team_1,
            TeamSide::T2 => &self.team_2,
        }
    }

    /// Read access to a player's hand.
    pub fn hand(&self, team_side: TeamSide, player: TeamPlayer) -> (hand: &Vec<Card>)
        ensures
            hand@ == self.spec_hand(team_side, player),
    {
        let team = self.team(team_side);
        match player {
            TeamPlayer::P1 => &team.p1_hand,
            TeamPlayer::P2 => &team.p2_hand,
        }
    }

    /// Removes the indexed card from the given hand, or reports the index
    /// as out of range and changes nothing.
    fn take_from_hand(
        &mut self,
        team_side: TeamSide,
        player: TeamPlayer,
        index: usize,
    ) -> (result: Result<Card, PlayErr>)
        requires
            old(self).wf(),
        ensures
            final(self).wf(),
            final(self).board@ == old(self).board@,
            forall|s: TeamSide|
                final(self).spec_prize(s) == old(self).spec_prize(s) && final(self).spec_scopa(s)
                    == old(self).spec_scopa(s) && final(self).spec_points(s) == old(
                    self,
                ).spec_points(s),
            index >= old(self).spec_hand(team_side, player).len() ==> result == Result::<
                Card,
                PlayErr,
            >::Err(PlayErr::IndexOutOfRange) && forall|s: TeamSide, p: TeamPlayer|
                final(self).spec_hand(s, p) == old(self).spec_hand(s, p),
            index < old(self).spec_hand(team_side, player).len() ==> result == Result::<
                Card,
                PlayErr,
            >::Ok(old(self).spec_hand(team_side, player)[index as int]) && final(self).spec_hand(
                team_side,
                player,
            ) == old(self).spec_hand(team_side, player).remove(index as int) && forall|
                s: TeamSide,
                p: TeamPlayer,
            |
                !(s == team_side && p == player) ==> final(self).spec_hand(s, p) == old(
                    self,
                ).spec_hand(s, p),
    {
        match (team_side, player) {
            (TeamSide::T1, TeamPlayer::P1) => {
                if index >= self.team_1.p1_hand.len() {
                    Err(PlayErr::IndexOutOfRange)
                } else {
                    Ok(self.team_1.p1_hand.remove(index))
                }
            },
            (TeamSide::T1, TeamPlayer::P2) => {
                if index >= self.team_1.p2_hand.len() {
                    Err(PlayErr::IndexOutOfRange)
                } else {
                    Ok(self.team_1.p2_hand.remove(index))
                }
            },
            (TeamSide::T2, TeamPlayer::P1) => {
                if index >= self.team_2.p1_hand.len() {
                    Err(PlayErr::IndexOutOfRange)
                } else {
                    Ok(self.team_2.p1_hand.remove(index))
                }
            },
            (TeamSide::T2, TeamPlayer::P2) => {
                if index >= self.team_2.p2_hand.len() {
                    Err(PlayErr::IndexOutOfRange)
                } else {
                    Ok(self.team_2.p2_hand.remove(index))
                }
            },
        }
    }

    /// Appends a card to a team's prize stack and changes nothing else.
    fn push_prize(&mut self, team_side: TeamSide, card: Card)
        requires
            old(self).wf(),
        ensures
            final(self).wf(),
            final(self).board@ == old(self).board@,
            forall|s: TeamSide, p: TeamPlayer|
                final(self).spec_hand(s, p) == old(self).spec_hand(s, p),
            final(self).spec_prize(team_side) == old(self).spec_prize(team_side).push(card),
            final(self).spec_prize(other_side(team_side)) == old(self).spec_prize(
                other_side(team_side),
            ),
            forall|s: TeamSide|
                final(self).spec_scopa(s) == old(self).spec_scopa(s) && final(self).spec_points(s)
                    == old(self).spec_points(s),
    {
        match team_side {
            TeamSide::T1 => self.team_1.prize.stack.push(card),
            TeamSide::T2 => self.team_2.prize.stack.push(card),
        }
    }

    /// Credits a team with one scopa and changes nothing else.
    fn bump_scopa(&mut self, team_side: TeamSide)
        requires
            old(self).wf(),
            old(self).spec_scopa(team_side) < old(self).spec_prize(team_side).len(),
        ensures
            final(self).wf(),
            final(self).board@ == old(self).board@,
            forall|s: TeamSide, p: TeamPlayer|
                final(self).spec_hand(s, p) == old(self).spec_hand(s, p),
            forall|s: TeamSide|
                final(self).spec_prize(s) == old(self).spec_prize(s) && final(self).spec_points(s)
                    == old(self).spec_points(s),
            final(self).spec_scopa(team_side) == old(self).spec_scopa(team_side) + 1,
            final(self).spec_scopa(other_side(team_side)) == old(self).spec_scopa(
                other_side(team_side),
            ),
    {
        match team_side {
            TeamSide::T1 => {
                let filled: usize = self.team_1.prize.stack.len();
                proof {
                    assert(self.team_1.prize.scopa_count < filled);
                }
                self.team_1.prize.scopa_count += 1;
            },
            TeamSide::T2 => {
                let filled: usize = self.team_2.prize.stack.len();
                proof {
                    assert(self.team_2.prize.scopa_count < filled);
                }
                self.team_2.prize.scopa_count += 1;
            },
        }
    }

    /// Moves the indexed board card onto a team's prize stack; taking the
    /// last board card scores one scopa.
    fn board_to_prize(&mut self, card_idx: usize, team_side: TeamSide)
        requires
            old(self).wf(),
            card_idx < old(self).board@.len(),
        ensures
            final(self).wf(),
            final(self).board@ == old(self).board@.remove(card_idx as int),
            forall|s: TeamSide, p: TeamPlayer|
                final(self).spec_hand(s, p) == old(self).spec_hand(s, p),
            final(self).spec_prize(team_side) == old(self).spec_prize(team_side).push(
                old(self).board@[card_idx as int],
            ),
            final(self).spec_prize(other_side(team_side)) == old(self).spec_prize(
                other_side(team_side),
            ),
            final(self).spec_scopa(team_side) == old(self).spec_scopa(team_side) + (
            if old(self).board@.len() == 1 {
                1int
            } else {
                0int
            }),
            final(self).spec_scopa(other_side(team_side)) == old(self).spec_scopa(
                other_side(team_side),
            ),
            forall|s: TeamSide| final(self).spec_points(s) == old(self).spec_points(s),
    {
        let prize_card = self.board.remove(card_idx);
        let len = self.board.len();
        self.push_prize(team_side, prize_card);
        if len == 0 {
            self.bump_scopa(team_side);
        }
    }

    /// Plays the indexed card from a player's hand: the card leaves the
    /// hand, the capture resolution runs against the board, the captured
    /// cards and the played card move to the acting team's prize pile —
    /// or, capturing nothing, the played card joins the board — and a
    /// capture clearing the board scores one scopa. An index outside the
    /// hand is rejected unchanged.
    pub fn play(&mut self, team_side: TeamSide, player: TeamPlayer, index: usize) -> (result:
        Result<(), PlayErr>)
        requires
            old(self).wf(),
        ensures
            final(self).wf(),
            index < old(self).spec_hand(team_side, player).len() <==> result is Ok,
            result is Err ==> result == Result::<(), PlayErr>::Err(PlayErr::IndexOutOfRange)
                && final(self).board@ == old(self).board@ && (forall|s: TeamSide, p: TeamPlayer|
                final(self).spec_hand(s, p) == old(self).spec_hand(s, p)) && (forall|s: TeamSide|
                final(self).spec_prize(s) == old(self).spec_prize(s) && final(self).spec_scopa(s)
                    == old(self).spec_scopa(s)),
            result is Ok ==> ({
                let played = old(self).spec_hand(team_side, player)[index as int];
                let board0 = old(self).board@;
                &&& final(self).board@ == new_board_after(board0, played)
                &&& final(self).spec_hand(team_side, player) == old(self).spec_hand(
                    team_side,
                    player,
                ).remove(index as int)
                &&& (forall|s: TeamSide, p: TeamPlayer|
                    !(s == team_side && p == player) ==> final(self).spec_hand(s, p) == old(
                        self,
                    ).spec_hand(s, p))
                &&& final(self).spec_prize(team_side) == old(self).spec_prize(team_side)
                    + prize_gain(board0, played)
                &&& final(self).spec_scopa(team_side) == old(self).spec_scopa(team_side)
                    + scopa_gain(board0, played)
                &&& final(self).spec_prize(other_side(team_side)) == old(self).spec_prize(
                    other_side(team_side),
                )
                &&& final(self).spec_scopa(other_side(team_side)) == old(self).spec_scopa(
                    other_side(team_side),
                )
            }),
            forall|s: TeamSide| final(self).spec_points(s) == old(self).spec_points(s),
    {
        let played_card = match self.take_from_hand(team_side, player, index) {
            Ok(card) => card,
            Err(e) => {
                return Err(e);
            },
        };
        let ghost board0 = self.board@;
        let decision = resolve_capture(&self.board, played_card);
        proof {
            let v = rank_value(played_card.card_type);
            lemma_find_direct_props(board0, v, 0);
            lemma_find_sum_props(board0, v, 0);
        }
        match decision {
            CaptureDecision::Sweep => {
                let was_nonempty = self.board.len() > 0;
                let ghost prize0 = self.spec_prize(team_side);
                match team_side {
                    TeamSide::T1 => self.team_1.prize.stack.append(&mut self.board),
                    TeamSide::T2 => self.team_2.prize.stack.append(&mut self.board),
                }
                self.push_prize(team_side, played_card);
                if was_nonempty {
                    self.bump_scopa(team_side);
                }
                proof {
                    assert(self.spec_prize(team_side) =~= prize0 + prize_gain(board0, played_card));
                    assert(self.board@ =~= new_board_after(board0, played_card));
                }
            },
            CaptureDecision::Single { i } => {
                self.board_to_prize(i, team_side);
                self.push_prize(team_side, played_card);
                proof {
                    assert(self.spec_prize(team_side) =~= old(self).spec_prize(team_side)
                        + prize_gain(board0, played_card));
                }
            },
            CaptureDecision::Pair { i, j } => {
                self.board_to_prize(j, team_side);
                self.board_to_prize(i, team_side);
                self.push_prize(team_side, played_card);
                proof {
                    assert(board0.remove(j as int)[i as int] == board0[i as int]);
                    assert(self.spec_prize(team_side) =~= old(self).spec_prize(team_side)
                        + prize_gain(board0, played_card));
                }
            },
            CaptureDecision::Triple { i, j, k } => {
                self.board_to_prize(k, team_side);
                self.board_to_prize(j, team_side);
                self.board_to_prize(i, team_side);
                proof {
                    assert(board0.remove(k as int)[j as int] == board0[j as int]);
                    assert(board0.remove(k as int).remove(j as int)[i as int] == board0[i as int]);
                }
                self.push_prize(team_side, played_card);
                proof {
                    assert(self.spec_prize(team_side) =~= old(self).spec_prize(team_side)
                        + prize_gain(board0, played_card));
                }
            },
            CaptureDecision::Miss => {
                self.board.push(played_card);
                proof {
                    assert(self.spec_prize(team_side) =~= old(self).spec_prize(team_side)
                        + prize_gain(board0, played_card));
                }
            },
        }
        Ok(())
    }
}

} // verus!
