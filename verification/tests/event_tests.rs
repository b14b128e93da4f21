use strato::event::{
    Action, GameStartAction, GameStartWithOptionsAction, RegisterPlayerAction,
    deal_cards_to_players, handle_start,
};
use strato::game::{GameOptions, GameState, GameStartupError, StratoGame};
use strato::player::generate_player_id;

#[test]
fn registering_appends_a_player() {
    let game = StratoGame::new();
    let id = generate_player_id();
    let action = RegisterPlayerAction(&id);
    let (new_state, new_context) = action
        .execute(game.context, GameState::WaitingForPlayers)
        .unwrap();
    assert!(new_state.is_none());
    let context = new_context.unwrap();
    assert_eq!(context.players.len(), 1);
    assert_eq!(context.players[0].id(), id);
}

#[test]
fn starting_without_options_heads_for_the_flip_off() {
    let mut game = StratoGame::new();
    game.add_player("one").unwrap();
    game.add_player("two").unwrap();
    let (new_state, new_context) = GameStartAction
        .execute(game.context, game.state)
        .unwrap();
    assert_eq!(new_state, Some(GameState::DetermineFirstPlayer));
    let context = new_context.unwrap();
    assert_eq!(context.deck.size(), 150 - 24 - 1);
    assert_eq!(context.discard_pile.size(), 1);
    assert_eq!(context.current_player_idx, None);
}

#[test]
fn starting_with_options_fixes_the_first_player() {
    let mut game = StratoGame::new();
    game.add_player("one").unwrap();
    game.add_player("two").unwrap();
    let action = GameStartWithOptionsAction(GameOptions {
        first_player_idx: Some(1),
    });
    let (new_state, new_context) = action.execute(game.context, game.state).unwrap();
    assert_eq!(new_state, Some(GameState::Active));
    assert_eq!(new_context.unwrap().current_player_idx, Some(1));
}

#[test]
fn starting_on_an_empty_deck_reports_it() {
    let mut game = StratoGame::new();
    game.add_player("one").unwrap();
    game.add_player("two").unwrap();
    while game.context.deck.draw().is_some() {}
    let result = GameStartAction.execute(game.context, game.state);
    assert_eq!(result.unwrap_err(), GameStartupError::DeckEmpty);
}

#[test]
fn dealing_needs_twelve_cards_per_player() {
    let mut game = StratoGame::new();
    game.add_player("one").unwrap();
    game.add_player("two").unwrap();
    let mut context = game.context;
    while context.deck.size() > 20 {
        context.deck.draw();
    }
    assert_eq!(
        deal_cards_to_players(&mut context),
        Err(GameStartupError::DeckEmpty)
    );
}

#[test]
fn a_deal_fills_every_spread() {
    let mut game = StratoGame::new();
    game.add_player("one").unwrap();
    game.add_player("two").unwrap();
    let mut context = game.context;
    deal_cards_to_players(&mut context).unwrap();
    assert_eq!(context.deck.size(), 150 - 24);
    for player in &context.players {
        assert_eq!(player.spread.remaining_cards().len(), 12);
        assert_eq!(player.spread.flipped_cards(), 0);
    }
}

#[test]
fn a_deal_into_occupied_spreads_is_refused() {
    let mut game = StratoGame::new();
    game.add_player("one").unwrap();
    game.add_player("two").unwrap();
    let mut context = game.context;
    deal_cards_to_players(&mut context).unwrap();
    let result = handle_start(
        context,
        GameState::WaitingForPlayers,
        GameOptions { first_player_idx: None },
    );
    assert!(result.is_err());
}
