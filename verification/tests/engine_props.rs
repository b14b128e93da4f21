use strato::card::{Card, CardValue, Deck, PlayerSpread, SpreadActionError};
use strato::game::{GameOptions, GameStartupError, GameState, PlayerTurnError, StratoGame};
use strato::player::{EndAction, Player, PlayerActionError, StartAction, generate_player_id};

#[test]
fn a_fresh_deck_has_ten_of_each_value() {
    let mut deck = Deck::new();
    assert_eq!(deck.size(), 150);

    let mut counts = [0usize; 15];
    while let Some(card) = deck.draw() {
        assert!(!card.is_flipped());
        counts[(card.value.to_i32() + 2) as usize] += 1;
    }
    for count in counts {
        assert_eq!(count, 10);
    }
}

#[test]
fn drawing_from_an_empty_deck_yields_nothing() {
    let mut deck = Deck::new();
    while deck.draw().is_some() {}
    assert_eq!(deck.size(), 0);
    assert_eq!(deck.draw(), None);
    assert_eq!(deck.size(), 0);
}

#[test]
fn placing_into_an_occupied_slot_fails_and_leaves_it() {
    let mut spread = PlayerSpread::new();
    let first = Card::new(3);
    spread.place_at(first, 1, 1).unwrap();

    let second = Card::new(9);
    assert_eq!(spread.place_at(second, 1, 1), Err(SpreadActionError::SpotTaken));
    assert_eq!(spread.take_from(1, 1), Ok(first));
}

#[test]
fn placement_outside_the_grid_is_refused() {
    let mut spread = PlayerSpread::new();
    assert!(matches!(
        spread.place_at(Card::new(0), 3, 0),
        Err(SpreadActionError::RowDoesntExist(_))
    ));
    assert!(matches!(
        spread.place_at(Card::new(0), 0, 4),
        Err(SpreadActionError::ColumnDoesntExist(_))
    ));
    assert!(matches!(
        spread.take_from(5, 0),
        Err(SpreadActionError::RowDoesntExist(_))
    ));
    assert_eq!(spread.take_from(0, 0), Err(SpreadActionError::NoCardFound));
    assert_eq!(spread.flip_at(0, 0), Err(SpreadActionError::NoCardFound));
}

#[test]
fn flipping_a_face_up_card_fails_and_it_stays_face_up() {
    let mut spread = PlayerSpread::new();
    spread.place_at(Card::new(4), 0, 2).unwrap();
    spread.flip_at(0, 2).unwrap();
    assert_eq!(spread.flip_at(0, 2), Err(SpreadActionError::CardAlreadyFlipped));
    assert_eq!(spread.view()[0][2], Some(CardValue::Four));
}

#[test]
fn a_matched_column_clears_and_an_unmatched_one_stays() {
    let mut matched = PlayerSpread::new();
    for row in 0..3 {
        matched.place_at(Card::new(7), row, 2).unwrap();
        matched.flip_at(row, 2).unwrap();
    }
    matched.remove_column_if_matches(2).unwrap();
    for row in 0..3 {
        assert_eq!(matched.take_from(row, 2), Err(SpreadActionError::NoCardFound));
    }

    let mut unmatched = PlayerSpread::new();
    unmatched.place_at(Card::new(7), 0, 1).unwrap();
    unmatched.place_at(Card::new(7), 1, 1).unwrap();
    unmatched.place_at(Card::new(8), 2, 1).unwrap();
    for row in 0..3 {
        unmatched.flip_at(row, 1).unwrap();
    }
    unmatched.remove_column_if_matches(1).unwrap();
    assert_eq!(unmatched.view()[0][1], Some(CardValue::Seven));
    assert_eq!(unmatched.view()[1][1], Some(CardValue::Seven));
    assert_eq!(unmatched.view()[2][1], Some(CardValue::Eight));
}

#[test]
fn a_partly_face_down_column_never_clears() {
    let mut spread = PlayerSpread::new();
    for row in 0..3 {
        spread.place_at(Card::new(5), row, 0).unwrap();
    }
    spread.flip_at(0, 0).unwrap();
    spread.flip_at(1, 0).unwrap();
    spread.remove_column_if_matches(0).unwrap();
    assert_eq!(spread.active_columns(), 1);
    assert_eq!(spread.flipped_cards(), 2);
}

#[test]
fn the_view_hides_face_down_cards() {
    let mut spread = PlayerSpread::new();
    spread.place_at(Card::new(11), 2, 3).unwrap();
    assert_eq!(spread.view()[2][3], None);
    spread.flip_at(2, 3).unwrap();
    assert_eq!(spread.view()[2][3], Some(CardValue::Eleven));
}

#[test]
fn remaining_cards_walk_the_grid_in_row_major_order() {
    let mut spread = PlayerSpread::new();
    spread.place_at(Card::new(1), 0, 3).unwrap();
    spread.place_at(Card::new(2), 1, 0).unwrap();
    spread.place_at(Card::new(3), 2, 2).unwrap();
    let remaining = spread.remaining_cards();
    assert_eq!(remaining.len(), 3);
    assert_eq!(remaining[0].value, CardValue::One);
    assert_eq!(remaining[1].value, CardValue::Two);
    assert_eq!(remaining[2].value, CardValue::Three);
    assert!(!spread.is_all_flipped());
    spread.flip_at(0, 3).unwrap();
    spread.flip_at(1, 0).unwrap();
    spread.flip_at(2, 2).unwrap();
    assert!(spread.is_all_flipped());
}

#[test]
fn a_player_holds_at_most_one_card() {
    let mut player = Player::new("abc");
    assert_eq!(player.id(), "abc".to_string());
    assert_eq!(player.holding(), None);

    player.hold(Card::new(6)).unwrap();
    let held = player.holding().unwrap();
    assert_eq!(held.value, CardValue::Six);
    assert!(held.is_flipped());

    let result = player.hold(Card::new(2));
    assert_eq!(result, Err(PlayerActionError::AlreadyHoldingCard(held)));

    assert_eq!(player.release(), Some(held));
    assert_eq!(player.release(), None);
}

#[test]
fn generated_player_ids_are_thirty_characters() {
    let id = generate_player_id();
    assert_eq!(id.chars().count(), 30);

    let mut game = StratoGame::new();
    let registered = game.add_player("someone").unwrap();
    assert_eq!(registered.chars().count(), 30);
}

#[test]
fn startup_error_taxonomy() {
    let mut lonely = StratoGame::new();
    lonely.add_player("only").unwrap();
    assert_eq!(lonely.start(), Err(GameStartupError::NotEnoughPlayers));

    let mut game = StratoGame::new();
    game.add_player("a").unwrap();
    game.add_player("b").unwrap();
    game.start_with_options(GameOptions { first_player_idx: Some(0) })
        .unwrap();
    assert_eq!(game.start(), Err(GameStartupError::GameAlreadyStarted));
    assert_eq!(game.add_player("c"), Err(GameStartupError::PlayersListLocked));
}

#[test]
fn turn_error_taxonomy() {
    let mut game = StratoGame::new();
    let first_id = game.add_player("a").unwrap();
    let second_id = game.add_player("b").unwrap();

    // no turns before the game starts
    assert_eq!(
        game.start_player_turn(&first_id, StartAction::DrawFromDeck),
        Err(PlayerTurnError::GameNotStarted)
    );
    assert_eq!(
        game.end_player_turn(&first_id, EndAction::Flip { row: 0, column: 0 }),
        Err(PlayerTurnError::GameNotStarted)
    );
    assert_eq!(
        game.player_flip_to_determine_who_is_first(&first_id, 0, 0),
        Err(PlayerTurnError::NotDeterminingFirstPlayer)
    );

    game.start_with_options(GameOptions { first_player_idx: Some(0) })
        .unwrap();

    assert_eq!(
        game.start_player_turn("nobody", StartAction::DrawFromDeck),
        Err(PlayerTurnError::PlayerDoesntExist)
    );
    assert_eq!(
        game.start_player_turn(&second_id, StartAction::DrawFromDeck),
        Err(PlayerTurnError::NotYourTurn)
    );
    assert_eq!(
        game.end_player_turn(&first_id, EndAction::Flip { row: 0, column: 0 }),
        Err(PlayerTurnError::TurnNotStarted)
    );

    // exhaust the discard pile, then ask for it
    while game.context.discard_pile.take().is_some() {}
    assert_eq!(
        game.start_player_turn(&first_id, StartAction::TakeFromDiscardPile),
        Err(PlayerTurnError::DiscardPileEmpty)
    );

    // exhaust the deck, then ask for it
    while game.context.deck.draw().is_some() {}
    assert_eq!(
        game.start_player_turn(&first_id, StartAction::DrawFromDeck),
        Err(PlayerTurnError::DeckEmpty)
    );
}

#[test]
fn a_wrong_turn_leaves_the_game_unchanged() {
    let (mut game, _first_id, second_id) = two_player_game();
    let deck_before = game.context.deck.clone();
    let discard_before = game.context.discard_pile.clone();
    assert_eq!(
        game.start_player_turn(&second_id, StartAction::DrawFromDeck),
        Err(PlayerTurnError::NotYourTurn)
    );
    assert_eq!(game.context.deck, deck_before);
    assert_eq!(game.context.discard_pile, discard_before);
    assert!(game
        .list_players()
        .iter()
        .all(|player| player.holding().is_none()));
}

fn two_player_game() -> (StratoGame, String, String) {
    let mut game = StratoGame::new();
    let first_id = game.add_player("first").unwrap();
    let second_id = game.add_player("second").unwrap();
    game.start_with_options(GameOptions { first_player_idx: Some(0) })
        .unwrap();
    (game, first_id, second_id)
}

#[test]
fn scenario_two_player_start() {
    let (game, _, _) = two_player_game();
    assert_eq!(game.state, GameState::Active);
    for player in game.list_players() {
        let cells = player.spread.view();
        let mut present = 0;
        for row in &cells {
            for cell in row {
                assert_eq!(*cell, None); // dealt face down: nothing shows
                present += 1;
            }
        }
        assert_eq!(present, 12);
        assert_eq!(player.spread.remaining_cards().len(), 12);
        assert_eq!(player.spread.flipped_cards(), 0);
    }
    assert_eq!(game.context.discard_pile.size(), 1);
    assert_eq!(game.context.deck.size(), 150 - 24 - 1);
}

#[test]
fn scenario_draw_then_flip() {
    let (mut game, first_id, _) = two_player_game();
    let discard_before = game.context.discard_pile.size();
    game.start_player_turn(&first_id, StartAction::DrawFromDeck)
        .unwrap();
    game.end_player_turn(&first_id, EndAction::Flip { row: 1, column: 2 })
        .unwrap();
    assert_eq!(game.context.discard_pile.size(), discard_before + 1);
    let player = &game.context.players[0];
    assert!(player.holding().is_none());
    assert!(player.spread.view()[1][2].is_some());
}

#[test]
fn scenario_same_cell_flipped_in_two_turns() {
    let (mut game, first_id, second_id) = two_player_game();
    game.start_player_turn(&first_id, StartAction::DrawFromDeck)
        .unwrap();
    game.end_player_turn(&first_id, EndAction::Flip { row: 0, column: 3 })
        .unwrap();

    game.start_player_turn(&second_id, StartAction::DrawFromDeck)
        .unwrap();
    game.end_player_turn(&second_id, EndAction::Flip { row: 0, column: 3 })
        .unwrap();

    game.start_player_turn(&first_id, StartAction::DrawFromDeck)
        .unwrap();
    let second_attempt = game.end_player_turn(&first_id, EndAction::Flip { row: 0, column: 3 });
    assert_eq!(
        second_attempt,
        Err(PlayerTurnError::PlayerSpreadError(
            SpreadActionError::CardAlreadyFlipped
        ))
    );
}

#[test]
fn scenario_flip_off_picks_the_higher_sum() {
    let mut game = StratoGame::new();
    let first_id = game.add_player("first").unwrap();
    let second_id = game.add_player("second").unwrap();
    game.start().unwrap();
    assert_eq!(game.state, GameState::DetermineFirstPlayer);

    game.player_flip_to_determine_who_is_first(&first_id, 0, 0)
        .unwrap();
    game.player_flip_to_determine_who_is_first(&first_id, 0, 1)
        .unwrap();
    game.player_flip_to_determine_who_is_first(&second_id, 0, 0)
        .unwrap();
    game.player_flip_to_determine_who_is_first(&second_id, 0, 1)
        .unwrap();

    assert_eq!(game.state, GameState::Active);
    let first_sum = game.context.players[0].spread.score();
    let second_sum = game.context.players[1].spread.score();
    let expected = if second_sum > first_sum { 1 } else { 0 };
    assert_eq!(game.context.current_player_idx, Some(expected));
}

#[test]
fn finishing_a_spread_starts_the_last_round() {
    let (mut game, first_id, second_id) = two_player_game();

    // The first player flips their whole spread, column by column; the
    // second player swaps the same cell of their own spread in between.
    for column in 0..4 {
        for row in 0..3 {
            game.start_player_turn(&first_id, StartAction::DrawFromDeck)
                .unwrap();
            game.end_player_turn(&first_id, EndAction::Flip { row, column })
                .unwrap();
            if game.state == GameState::LastRound {
                break;
            }
            game.start_player_turn(&second_id, StartAction::DrawFromDeck)
                .unwrap();
            game.end_player_turn(&second_id, EndAction::Swap { row: 0, column: 0 })
                .unwrap();
        }
        if game.state == GameState::LastRound {
            break;
        }
    }

    assert_eq!(game.state, GameState::LastRound);
    assert_eq!(game.context.finisher_idx, Some(0));
    assert!(game.context.players[0].spread.is_all_flipped());
}
