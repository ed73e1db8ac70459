use scopa::card::{Card, CardType, Suit};
use scopa::game::{card_sum_check, resolve_capture, CaptureDecision, Game, PlayErr, TeamPlayer, TeamSide};

fn card(suit: Suit, card_type: CardType) -> Card {
    Card { suit, card_type }
}

fn game_with(board: Vec<Card>, t1_p1: Vec<Card>) -> Game {
    Game::new(board, t1_p1, Vec::new(), Vec::new(), Vec::new())
}

#[test]
fn sum_pair_clears_board_and_scores_scopa() {
    // board ♥2 ♦5, playing ♣7 captures both by sum (2 + 5 = 7)
    let two = card(Suit::Hearts, CardType::Two);
    let five = card(Suit::Tiles, CardType::Five);
    let seven = card(Suit::Clovers, CardType::Seven);
    let mut game = game_with(vec![two, five], vec![seven]);
    assert_eq!(game.play(TeamSide::T1, TeamPlayer::P1, 0), Ok(()));
    assert!(game.board.is_empty());
    assert_eq!(game.team(TeamSide::T1).prize.stack, vec![five, two, seven]);
    assert_eq!(game.team(TeamSide::T1).prize.scopa_count, 1);
    assert!(game.hand(TeamSide::T1, TeamPlayer::P1).is_empty());
}

#[test]
fn direct_match_clears_board_and_scores_scopa() {
    // board ♥K, playing ♦K captures it by direct match
    let board_king = card(Suit::Hearts, CardType::King);
    let hand_king = card(Suit::Tiles, CardType::King);
    let mut game = game_with(vec![board_king], vec![hand_king]);
    assert_eq!(game.play(TeamSide::T1, TeamPlayer::P1, 0), Ok(()));
    assert!(game.board.is_empty());
    assert_eq!(game.team(TeamSide::T1).prize.stack, vec![board_king, hand_king]);
    assert_eq!(game.team(TeamSide::T1).prize.scopa_count, 1);
}

#[test]
fn ace_sweeps_non_empty_board() {
    // board ♥A ♦2, playing ♣A takes the whole board
    let board_ace = card(Suit::Hearts, CardType::Ace);
    let board_two = card(Suit::Tiles, CardType::Two);
    let played_ace = card(Suit::Clovers, CardType::Ace);
    let mut game = game_with(vec![board_ace, board_two], vec![played_ace]);
    assert_eq!(game.play(TeamSide::T1, TeamPlayer::P1, 0), Ok(()));
    assert!(game.board.is_empty());
    assert_eq!(
        game.team(TeamSide::T1).prize.stack,
        vec![board_ace, board_two, played_ace]
    );
    assert_eq!(game.team(TeamSide::T1).prize.scopa_count, 1);
}

#[test]
fn ace_on_empty_board_scores_no_scopa() {
    let played_ace = card(Suit::Hearts, CardType::Ace);
    let mut game = game_with(Vec::new(), vec![played_ace]);
    assert_eq!(game.play(TeamSide::T1, TeamPlayer::P1, 0), Ok(()));
    assert!(game.board.is_empty());
    assert_eq!(game.team(TeamSide::T1).prize.stack, vec![played_ace]);
    assert_eq!(game.team(TeamSide::T1).prize.scopa_count, 0);
}

#[test]
fn direct_match_takes_only_the_first_equal_card() {
    // two equal-value cards on the board: only the first one is captured
    let first_three = card(Suit::Hearts, CardType::Three);
    let second_three = card(Suit::Tiles, CardType::Three);
    let played_three = card(Suit::Clovers, CardType::Three);
    let mut game = game_with(vec![first_three, second_three], vec![played_three]);
    assert_eq!(game.play(TeamSide::T1, TeamPlayer::P1, 0), Ok(()));
    assert_eq!(game.board, vec![second_three]);
    assert_eq!(game.team(TeamSide::T1).prize.stack, vec![first_three, played_three]);
    assert_eq!(game.team(TeamSide::T1).prize.scopa_count, 0);
}

#[test]
fn half_value_cards_never_join_a_sum() {
    // 3 + 3 would reach 6, but a card worth half the played value is
    // excluded from sums, so the six stays on the board
    let first_three = card(Suit::Hearts, CardType::Three);
    let second_three = card(Suit::Tiles, CardType::Three);
    let played_six = card(Suit::Clovers, CardType::Six);
    let mut game = game_with(vec![first_three, second_three], vec![played_six]);
    assert_eq!(game.play(TeamSide::T1, TeamPlayer::P1, 0), Ok(()));
    assert_eq!(game.board, vec![first_three, second_three, played_six]);
    assert!(game.team(TeamSide::T1).prize.stack.is_empty());
    assert_eq!(game.team(TeamSide::T1).prize.scopa_count, 0);
}

#[test]
fn triple_sum_captures_all_three() {
    // 2 + 2 + 6 = 10 captures as a triple under a played King
    let first_two = card(Suit::Hearts, CardType::Two);
    let second_two = card(Suit::Tiles, CardType::Two);
    let six = card(Suit::Clovers, CardType::Six);
    let king = card(Suit::Pikes, CardType::King);
    let mut game = game_with(vec![first_two, second_two, six], vec![king]);
    assert_eq!(game.play(TeamSide::T1, TeamPlayer::P1, 0), Ok(()));
    assert!(game.board.is_empty());
    assert_eq!(
        game.team(TeamSide::T1).prize.stack,
        vec![six, second_two, first_two, king]
    );
    assert_eq!(game.team(TeamSide::T1).prize.scopa_count, 1);
}

#[test]
fn pair_falling_short_captures_nothing() {
    // 2 + 3 stays below 10 and no third card completes the sum: the King
    // joins the board instead
    let two = card(Suit::Hearts, CardType::Two);
    let three = card(Suit::Tiles, CardType::Three);
    let king = card(Suit::Pikes, CardType::King);
    let mut game = game_with(vec![two, three], vec![king]);
    assert_eq!(game.play(TeamSide::T1, TeamPlayer::P1, 0), Ok(()));
    assert_eq!(game.board, vec![two, three, king]);
    assert!(game.team(TeamSide::T1).prize.stack.is_empty());
    assert_eq!(game.team(TeamSide::T1).prize.scopa_count, 0);
}

#[test]
fn no_match_appends_played_card() {
    let two = card(Suit::Hearts, CardType::Two);
    let seven = card(Suit::Clovers, CardType::Seven);
    let mut game = game_with(vec![two], vec![seven]);
    assert_eq!(game.play(TeamSide::T1, TeamPlayer::P1, 0), Ok(()));
    assert_eq!(game.board, vec![two, seven]);
    assert!(game.team(TeamSide::T1).prize.stack.is_empty());
    assert_eq!(game.team(TeamSide::T1).prize.scopa_count, 0);
}

#[test]
fn play_rejects_an_index_outside_the_hand() {
    let two = card(Suit::Hearts, CardType::Two);
    let seven = card(Suit::Clovers, CardType::Seven);
    let mut game = game_with(vec![two], vec![seven]);
    assert_eq!(
        game.play(TeamSide::T1, TeamPlayer::P1, 1),
        Err(PlayErr::IndexOutOfRange)
    );
    assert_eq!(game.board, vec![two]);
    assert_eq!(game.hand(TeamSide::T1, TeamPlayer::P1), &vec![seven]);
    assert!(game.team(TeamSide::T1).prize.stack.is_empty());
}

#[test]
fn second_team_captures_into_its_own_prize() {
    let four = card(Suit::Hearts, CardType::Four);
    let played_four = card(Suit::Pikes, CardType::Four);
    let mut game = Game::new(vec![four], Vec::new(), Vec::new(), Vec::new(), vec![played_four]);
    assert_eq!(game.play(TeamSide::T2, TeamPlayer::P2, 0), Ok(()));
    assert!(game.board.is_empty());
    assert!(game.team(TeamSide::T1).prize.stack.is_empty());
    assert_eq!(game.team(TeamSide::T2).prize.stack, vec![four, played_four]);
    assert_eq!(game.team(TeamSide::T2).prize.scopa_count, 1);
    assert_eq!(game.team(TeamSide::T1).points, 0);
    assert_eq!(game.team(TeamSide::T2).points, 0);
}

#[test]
fn resolver_reports_the_capture_without_mutating() {
    let two = card(Suit::Hearts, CardType::Two);
    let five = card(Suit::Tiles, CardType::Five);
    let board = vec![two, five];
    assert_eq!(
        resolve_capture(&board, card(Suit::Clovers, CardType::Seven)),
        CaptureDecision::Pair { i: 0, j: 1 }
    );
    assert_eq!(
        resolve_capture(&board, card(Suit::Clovers, CardType::Ace)),
        CaptureDecision::Sweep
    );
    assert_eq!(
        resolve_capture(&board, card(Suit::Clovers, CardType::Five)),
        CaptureDecision::Single { i: 1 }
    );
    assert_eq!(
        resolve_capture(&board, card(Suit::Clovers, CardType::King)),
        CaptureDecision::Miss
    );
    assert_eq!(board, vec![two, five]);
}

#[test]
fn sum_eligibility_filter() {
    let seven = card(Suit::Clovers, CardType::Seven);
    // a card worth half the played value may not join a sum
    assert!(!card_sum_check(card(Suit::Clovers, CardType::Six), card(Suit::Hearts, CardType::Three)));
    // a card within one of the played value may not join a sum
    assert!(!card_sum_check(seven, card(Suit::Hearts, CardType::Six)));
    assert!(!card_sum_check(seven, card(Suit::Hearts, CardType::Seven)));
    // a small enough card may
    assert!(card_sum_check(seven, card(Suit::Hearts, CardType::Two)));
    assert!(card_sum_check(seven, card(Suit::Hearts, CardType::Ace)));
}
