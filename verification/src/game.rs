//! The game itself: the state machine, the turn protocol, first-player
//! determination, last-round and end-of-game handling, and change
//! notifications.

use crate::card::{Card, Deck, DiscardPile, SpreadActionError, cell_card, cell_is_flipped, full_deck};
use crate::player::{EndAction, Player, PlayerActionError, StartAction};
use crate::subscription::{Subscribe, Subscriber, SubscriberEvent};
use vstd::prelude::*;

verus! {

broadcast use crate::card::lemma_grid_dims;

/// What can go wrong while setting a game up.
#[derive(Debug, PartialEq, Copy, Clone)]
pub enum GameStartupError {
    GameAlreadyStarted,
    PlayersListLocked,
    NotEnoughPlayers,
    PlayerSpreadError(SpreadActionError),
    DeckEmpty,
}

/// What can go wrong during a player's turn.
#[derive(Debug, PartialEq, Copy, Clone)]
pub enum PlayerTurnError {
    PlayerDoesntExist,
    NotDeterminingFirstPlayer,
    TooManyCardsFlipped,
    GameNotStarted,
    TurnAlreadyStarted,
    TurnNotStarted,
    NotYourTurn,
    PlayerActionError(PlayerActionError),
    PlayerSpreadError(SpreadActionError),
    DeckEmpty,
    DiscardPileEmpty,
}

/// Where the game stands in its life cycle.
#[derive(Debug, PartialEq, Eq, Structural, Copy, Clone)]
pub enum GameState {
    /// In the waiting room for players to join.
    WaitingForPlayers,
    /// Initializing game state.
    Startup,
    /// Optional: each player flips two cards; the highest sum goes first.
    DetermineFirstPlayer,
    /// The game is ongoing.
    Active,
    /// Everyone after the finisher gets one last turn.
    LastRound,
    /// The game is over.
    Ended,
}

/// Everything the game owns besides its state label.
#[derive(Debug)]
pub struct GameContext {
    /// The players, in registration order; frozen once the game starts.
    pub players: Vec<Player>,
    /// Whose turn it is; undefined until a first player is chosen.
    pub current_player_idx: Option<usize>,
    /// The shared draw deck.
    pub deck: Deck,
    /// The shared discard pile.
    pub discard_pile: DiscardPile,
    /// How many times the full players list has been iterated through.
    pub round: usize,
    /// The player who finished their spread first, starting the last round.
    pub finisher_idx: Option<usize>,
    /// The player who won the game, once it has ended.
    pub winner_idx: Option<usize>,
}

/// Whether two contexts describe the same game position, card for card.
pub open spec fn context_matches(a: GameContext, b: GameContext) -> bool {
    &&& a.players@ == b.players@
    &&& a.current_player_idx == b.current_player_idx
    &&& a.deck@ == b.deck@
    &&& a.discard_pile@ == b.discard_pile@
    &&& a.round == b.round
    &&& a.finisher_idx == b.finisher_idx
    &&& a.winner_idx == b.winner_idx
}

/// An element-for-element copy of a players list.
fn clone_players(players: &Vec<Player>) -> (result: Vec<Player>)
    ensures
        result@ == players@,
{
    let mut result: Vec<Player> = Vec::new();
    let mut i: usize = 0;
    while i < players.len()
        invariant
            i <= players@.len(),
            result@ == players@.take(i as int),
        decreases players@.len() - i,
    {
        result.push(players[i].clone());
        proof {
            assert(players@.take(i + 1) =~= players@.take(i as int).push(players@[i as int]));
        }
        i += 1;
    }
    proof {
        assert(players@.take(players@.len() as int) =~= players@);
    }
    result
}

impl Clone for GameContext {
    /// A copy describing the same game position, card for card.
    fn clone(&self) -> (result: Self)
        ensures
            context_matches(result, *self),
    {
        GameContext {
            players: clone_players(&self.players),
            current_player_idx: self.current_player_idx,
            deck: self.deck.clone(),
            discard_pile: self.discard_pile.clone(),
            round: self.round,
            finisher_idx: self.finisher_idx,
            winner_idx: self.winner_idx,
        }
    }
}

/// Choices made when starting a game.
#[derive(Debug, PartialEq, Copy, Clone)]
pub struct GameOptions {
    /// Hand the first turn to this player directly, skipping the
    /// flip-to-determine phase.
    pub first_player_idx: Option<usize>,
}

impl Default for GameOptions {
    /// No first player chosen up front.
    fn default() -> (result: GameOptions)
        ensures
            result.first_player_idx is None,
    {
        GameOptions { first_player_idx: None }
    }
}

/// Whether no player in the list carries the given identifier.
pub open spec fn no_player_has_id(players: Seq<Player>, id: Seq<char>) -> bool {
    forall|i: int| 0 <= i < players.len() ==> #[trigger] players[i].id@ != id
}

/// Whether `i` is the first position carrying the given identifier.
pub open spec fn is_first_match(players: Seq<Player>, id: Seq<char>, i: int) -> bool {
    &&& 0 <= i < players.len()
    &&& players[i].id@ == id
    &&& forall|j: int| 0 <= j < i ==> #[trigger] players[j].id@ != id
}

/// Find the first player carrying the given identifier.
fn find_player_index(players: &Vec<Player>, player_id: &String) -> (result: Option<usize>)
    ensures
        result is None <==> no_player_has_id(players@, player_id@),
        result matches Some(i) ==> is_first_match(players@, player_id@, i as int),
{
    let mut i: usize = 0;
    while i < players.len()
        invariant
            i <= players@.len(),
            forall|j: int| 0 <= j < i ==> #[trigger] players@[j].id@ != player_id@,
        decreases players@.len() - i,
    {
        if players[i].id == *player_id {
            return Some(i);
        }
        i += 1;
    }
    None
}

/// Whether the mailbox of `after` extends the mailbox of `before` by exactly
/// the given events, with the subscription slot itself untouched.
pub open spec fn notified(
    before: Option<Subscriber>,
    after: Option<Subscriber>,
    events: Seq<SubscriberEvent>,
) -> bool {
    match before {
        None => after is None,
        Some(s) => match after {
            Some(t) => t.received@ == s.received@ + events,
            None => false,
        },
    }
}

/// Whether an event carries a snapshot of the given context.
pub open spec fn event_is_context_snapshot(event: SubscriberEvent, context: GameContext) -> bool {
    match event {
        SubscriberEvent::ContextChanged(snapshot) => context_matches(snapshot, context),
        SubscriberEvent::StateChanged(_) => false,
    }
}

/// Whether the subscriber was handed exactly one event: a snapshot of the
/// given context.
pub open spec fn context_change_notified(
    before: Option<Subscriber>,
    after: Option<Subscriber>,
    context: GameContext,
) -> bool {
    match before {
        None => after is None,
        Some(s) => match after {
            Some(t) => {
                &&& t.received@.len() == s.received@.len() + 1
                &&& t.received@.drop_last() == s.received@
                &&& event_is_context_snapshot(t.received@.last(), context)
            },
            None => false,
        },
    }
}

/// The game: a state label, the owned context, and at most one subscriber.
#[derive(Debug)]
pub struct StratoGame {
    pub state: GameState,
    pub context: GameContext,
    pub subscriber: Option<Subscriber>,
}

impl StratoGame {
    /// A fresh game: waiting for players, with a full deck in construction
    /// order, an empty discard pile, and nobody subscribed.
    pub fn new() -> (result: StratoGame)
        ensures
            result.state == GameState::WaitingForPlayers,
            result.context.players@.len() == 0,
            result.context.current_player_idx is None,
            result.context.deck@ == full_deck(),
            result.context.discard_pile@ == Seq::<Card>::empty(),
            result.context.round == 0,
            result.context.finisher_idx is None,
            result.context.winner_idx is None,
            result.subscriber is None,
    {
        StratoGame {
            state: GameState::WaitingForPlayers,
            context: GameContext {
                players: Vec::new(),
                current_player_idx: None,
                deck: Deck::new(),
                discard_pile: DiscardPile::new(),
                round: 0,
                finisher_idx: None,
                winner_idx: None,
            },
            subscriber: None,
        }
    }

    /// Register an observer; it replaces any prior one, whose mailbox is
    /// dropped with it.
    pub fn subscribe(&mut self, subscriber: Subscriber)
        ensures
            *final(self) == (StratoGame { subscriber: Some(subscriber), ..*old(self) }),
    {
        self.subscriber = Some(subscriber);
    }

    /// Drop the observer, if any.
    pub fn unsubscribe(&mut self)
        ensures
            *final(self) == (StratoGame { subscriber: None, ..*old(self) }),
    {
        self.subscriber = None;
    }

    /// Hand one event to the subscriber, if any.
    fn notify(&mut self, event: SubscriberEvent)
        ensures
            final(self).state == old(self).state,
            final(self).context == old(self).context,
            notified(old(self).subscriber, final(self).subscriber, seq![event]),
    {
        match &mut self.subscriber {
            Some(subscriber) => {
                subscriber.emit(event);
                proof {
                    assert(final(self).subscriber matches Some(t) ==> t.received@
                        =~= cell_received(old(self).subscriber) + seq![event]);
                }
            },
            None => (),
        }
    }

    /// Move to a new state and tell the subscriber.
    fn update_state(&mut self, state: GameState)
        ensures
            final(self).state == state,
            final(self).context == old(self).context,
            notified(
                old(self).subscriber,
                final(self).subscriber,
                seq![SubscriberEvent::StateChanged(state)],
            ),
    {
        self.state = state;
        self.notify(SubscriberEvent::StateChanged(state));
    }

    /// Tell the subscriber that the context changed, with a snapshot of it.
    fn notify_context_changed(&mut self)
        ensures
            final(self).state == old(self).state,
            final(self).context == old(self).context,
            context_change_notified(
                old(self).subscriber,
                final(self).subscriber,
                old(self).context,
            ),
    {
        let snapshot = self.context.clone();
        self.notify(SubscriberEvent::ContextChanged(snapshot));
        proof {
            if old(self).subscriber is Some {
                let s = cell_received(old(self).subscriber);
                let t = cell_received(final(self).subscriber);
                assert(t =~= s + seq![SubscriberEvent::ContextChanged(snapshot)]);
                assert(t.drop_last() =~= s);
            }
        }
    }

    /// Register a new player under a generated identifier, which is returned;
    /// only possible while the game waits for players. The chosen name is for
    /// the table talk of the embedding layer: the engine records players by
    /// their generated identifiers alone.
    pub fn add_player(&mut self, player_name: &str) -> (result: Result<String, GameStartupError>)
        ensures
            old(self).state != GameState::WaitingForPlayers ==> result == Err::<
                String,
                GameStartupError,
            >(GameStartupError::PlayersListLocked) && *final(self) == *old(self),
            old(self).state == GameState::WaitingForPlayers ==> ({
                let players = final(self).context.players@;
                &&& result matches Ok(id) && id@.len() == 30 && players.last().id@ == id@
                &&& players.len() == old(self).context.players@.len() + 1
                &&& players.drop_last() == old(self).context.players@
                &&& players.last().holding is None
                &&& forall|r: int, c: int|
                    0 <= r < 3 && 0 <= c < 4 ==> players.last().spread.grid()[r][c] is None
                &&& final(self).state == old(self).state
                &&& final(self).context.current_player_idx == old(self).context.current_player_idx
                &&& final(self).context.deck@ == old(self).context.deck@
                &&& final(self).context.discard_pile@ == old(self).context.discard_pile@
                &&& final(self).context.round == old(self).context.round
                &&& final(self).context.finisher_idx == old(self).context.finisher_idx
                &&& final(self).context.winner_idx == old(self).context.winner_idx
                &&& context_change_notified(
                    old(self).subscriber,
                    final(self).subscriber,
                    final(self).context,
                )
            }),
    {
        if self.state == GameState::WaitingForPlayers {
            let player_id = crate::player::generate_player_id();
            let player = Player::new(player_id.as_str());
            self.context.players.push(player);
            self.notify_context_changed();
            proof {
                assert(final(self).context.players@.drop_last() =~= old(
                    self,
                ).context.players@);
            }
            Ok(player_id)
        } else {
            Err(GameStartupError::PlayersListLocked)
        }
    }

    /// Every registered player, in registration order.
    pub fn list_players(&self) -> (result: Vec<Player>)
        ensures
            result@ == self.context.players@,
    {
        clone_players(&self.context.players)
    }

    /// Whether the player at `player_idx` may act: either it is their turn,
    /// or no turn order has been fixed yet.
    fn check_if_player_turn(&self, player_idx: usize) -> (result: Result<(), PlayerTurnError>)
        ensures
            result == if is_players_turn(self.context.current_player_idx, player_idx as int) {
                Ok::<(), PlayerTurnError>(())
            } else {
                Err::<(), PlayerTurnError>(PlayerTurnError::NotYourTurn)
            },
    {
        match self.context.current_player_idx {
            Some(current_player_idx) => {
                if player_idx != current_player_idx {
                    Err(PlayerTurnError::NotYourTurn)
                } else {
                    Ok(())
                }
            },
            None => Ok(()),
        }
    }

    /// Open a turn: the acting player, identified by id, draws from the deck
    /// or takes the top of the discard pile, and holds that card until the
    /// turn ends.
    pub fn start_player_turn(&mut self, player_id: &str, action: StartAction) -> (result: Result<
        (),
        PlayerTurnError,
    >)
        ensures
            old(self).state != GameState::Active ==> result == Err::<(), PlayerTurnError>(
                PlayerTurnError::GameNotStarted,
            ) && *final(self) == *old(self),
            old(self).state == GameState::Active && no_player_has_id(
                old(self).context.players@,
                player_id@,
            ) ==> result == Err::<(), PlayerTurnError>(PlayerTurnError::PlayerDoesntExist)
                && *final(self) == *old(self),
            old(self).state == GameState::Active ==> forall|i: int|
                #[trigger] is_first_match(old(self).context.players@, player_id@, i) ==> ({
                    let before = *old(self);
                    let player = before.context.players@[i];
                    &&& !is_players_turn(before.context.current_player_idx, i) ==> result == Err::<
                        (),
                        PlayerTurnError,
                    >(PlayerTurnError::NotYourTurn) && *final(self) == before
                    &&& is_players_turn(before.context.current_player_idx, i) && player.holding
                        is Some ==> result == Err::<(), PlayerTurnError>(
                        PlayerTurnError::TurnAlreadyStarted,
                    ) && *final(self) == before
                    &&& is_players_turn(before.context.current_player_idx, i) && player.holding
                        is None ==> ({
                        &&& action == StartAction::DrawFromDeck && before.context.deck@.len() == 0
                            ==> result == Err::<(), PlayerTurnError>(PlayerTurnError::DeckEmpty)
                            && game_matches(*final(self), before)
                        &&& action == StartAction::DrawFromDeck && before.context.deck@.len() > 0
                            ==> ({
                            &&& result == Ok::<(), PlayerTurnError>(())
                            &&& final(self).context.deck@ == before.context.deck@.drop_last()
                            &&& final(self).context.players@ == before.context.players@.update(
                                i,
                                held_player(player, before.context.deck@.last()),
                            )
                            &&& final(self).context.discard_pile@
                                == before.context.discard_pile@
                            &&& turn_frame(before, *final(self))
                        })
                        &&& action == StartAction::TakeFromDiscardPile
                            && before.context.discard_pile@.len() == 0 ==> result == Err::<
                            (),
                            PlayerTurnError,
                        >(PlayerTurnError::DiscardPileEmpty) && game_matches(*final(self), before)
                        &&& action == StartAction::TakeFromDiscardPile
                            && before.context.discard_pile@.len() > 0 ==> ({
                            &&& result == Ok::<(), PlayerTurnError>(())
                            &&& final(self).context.discard_pile@
                                == before.context.discard_pile@.drop_last()
                            &&& final(self).context.players@ == before.context.players@.update(
                                i,
                                held_player(player, before.context.discard_pile@.last()),
                            )
                            &&& final(self).context.deck@ == before.context.deck@
                            &&& turn_frame(before, *final(self))
                        })
                    })
                }),
    {
        if self.state != GameState::Active {
            return Err(PlayerTurnError::GameNotStarted);
        }
        let want: String = player_id.to_owned();
        let player_idx = match find_player_index(&self.context.players, &want) {
            Some(player_idx) => player_idx,
            None => {
                return Err(PlayerTurnError::PlayerDoesntExist);
            },
        };
        proof {
            lemma_first_match_unique(self.context.players@, want@, player_idx as int);
        }
        match self.check_if_player_turn(player_idx) {
            Ok(()) => (),
            Err(error) => {
                return Err(error);
            },
        }
        if self.context.players[player_idx].holding().is_some() {
            return Err(PlayerTurnError::TurnAlreadyStarted);
        }
        match action {
            StartAction::DrawFromDeck => {
                let card = match self.context.deck.draw() {
                    Some(card) => card,
                    None => {
                        return Err(PlayerTurnError::DeckEmpty);
                    },
                };
                match self.context.players[player_idx].hold(card) {
                    Ok(()) => (),
                    Err(error) => {
                        return Err(PlayerTurnError::PlayerActionError(error));
                    },
                }
            },
            StartAction::TakeFromDiscardPile => {
                let card = match self.context.discard_pile.take() {
                    Some(card) => card,
                    None => {
                        return Err(PlayerTurnError::DiscardPileEmpty);
                    },
                };
                match self.context.players[player_idx].hold(card) {
                    Ok(()) => (),
                    Err(error) => {
                        return Err(PlayerTurnError::PlayerActionError(error));
                    },
                }
            },
        }
        self.notify_context_changed();
        Ok(())
    }

    /// Whether the flip-off has finished: once every player shows exactly two
    /// cards, the first player with the highest two-card sum goes first.
    fn check_if_first_player_determined(&self) -> (result: Option<usize>)
        requires
            self.context.players@.len() > 0,
        ensures
            result is Some <==> all_two_flipped(self.context.players@),
            result matches Some(first) ==> is_first_max_score(
                self.context.players@,
                first as int,
            ),
    {
        let players_count = self.context.players.len();
        let mut i: usize = 0;
        while i < players_count
            invariant
                i <= players_count,
                forall|j: int|
                    0 <= j < i ==> (#[trigger] self.context.players@[j]).spread.spec_flipped_count()
                        == 2,
            decreases players_count - i,
        {
            if self.context.players[i].spread.flipped_cards() != 2 {
                return None;
            }
            i += 1;
        }
        let mut best: usize = 0;
        let mut best_score: i32 = self.context.players[0].spread.score();
        let mut i: usize = 1;
        while i < players_count
            invariant
                1 <= i <= players_count,
                best < i,
                best_score as int == self.context.players@[best as int].spread.spec_score(),
                forall|j: int|
                    0 <= j < best ==> (#[trigger] self.context.players@[j]).spread.spec_score()
                        < best_score as int,
                forall|j: int|
                    best <= j < i ==> (#[trigger] self.context.players@[j]).spread.spec_score()
                        <= best_score as int,
            decreases players_count - i,
        {
            let score = self.context.players[i].spread.score();
            if score > best_score {
                best = i;
                best_score = score;
            }
            i += 1;
        }
        Some(best)
    }

    /// One flip of the flip-off: in the determine-first-player phase, the
    /// named player turns one of their own cards face up, at most two in all.
    /// Once every player shows two cards, play begins with the highest sum.
    pub fn player_flip_to_determine_who_is_first(
        &mut self,
        player_id: &str,
        row: usize,
        column: usize,
    ) -> (result: Result<(), PlayerTurnError>)
        ensures
            old(self).state != GameState::DetermineFirstPlayer ==> result == Err::<
                (),
                PlayerTurnError,
            >(PlayerTurnError::NotDeterminingFirstPlayer) && *final(self) == *old(self),
            old(self).state == GameState::DetermineFirstPlayer && no_player_has_id(
                old(self).context.players@,
                player_id@,
            ) ==> result == Err::<(), PlayerTurnError>(PlayerTurnError::PlayerDoesntExist)
                && *final(self) == *old(self),
            old(self).state == GameState::DetermineFirstPlayer ==> forall|i: int|
                #[trigger] is_first_match(old(self).context.players@, player_id@, i) ==> ({
                    let before = *old(self);
                    let player = before.context.players@[i];
                    let cell = player.spread.grid()[row as int][column as int];
                    &&& player.spread.spec_flipped_count() >= 2 ==> result == Err::<
                        (),
                        PlayerTurnError,
                    >(PlayerTurnError::TooManyCardsFlipped) && *final(self) == before
                    &&& player.spread.spec_flipped_count() < 2 ==> ({
                        &&& row >= 3 ==> ({
                            &&& result matches Err(PlayerTurnError::PlayerSpreadError(
                                SpreadActionError::RowDoesntExist(_),
                            ))
                            &&& game_matches(*final(self), before)
                        })
                        &&& row < 3 && column >= 4 ==> ({
                            &&& result matches Err(PlayerTurnError::PlayerSpreadError(
                                SpreadActionError::ColumnDoesntExist(_),
                            ))
                            &&& game_matches(*final(self), before)
                        })
                        &&& row < 3 && column < 4 && cell is None ==> result == Err::<
                            (),
                            PlayerTurnError,
                        >(PlayerTurnError::PlayerSpreadError(SpreadActionError::NoCardFound))
                            && game_matches(*final(self), before)
                        &&& row < 3 && column < 4 && cell is Some && cell_is_flipped(cell)
                            ==> result == Err::<(), PlayerTurnError>(
                            PlayerTurnError::PlayerSpreadError(
                                SpreadActionError::CardAlreadyFlipped,
                            ),
                        ) && game_matches(*final(self), before)
                        &&& row < 3 && column < 4 && cell is Some && !cell_is_flipped(cell) ==> ({
                            let players = final(self).context.players@;
                            &&& result == Ok::<(), PlayerTurnError>(())
                            &&& players.len() == before.context.players@.len()
                            &&& forall|j: int|
                                0 <= j < players.len() && j != i ==> #[trigger] players[j]
                                    == before.context.players@[j]
                            &&& player_flipped_at(player, players[i], row as int, column as int)
                            &&& final(self).context.deck@ == before.context.deck@
                            &&& final(self).context.discard_pile@
                                == before.context.discard_pile@
                            &&& final(self).context.round == before.context.round
                            &&& final(self).context.finisher_idx == before.context.finisher_idx
                            &&& final(self).context.winner_idx == before.context.winner_idx
                            &&& all_two_flipped(players) ==> ({
                                &&& final(self).state == GameState::Active
                                &&& final(self).context.current_player_idx matches Some(first)
                                    && is_first_max_score(players, first as int)
                                &&& exists|snapshot: GameContext|
                                    #[trigger] context_matches(snapshot, final(self).context)
                                        && notified(
                                        before.subscriber,
                                        final(self).subscriber,
                                        seq![
                                            SubscriberEvent::StateChanged(GameState::Active),
                                            SubscriberEvent::ContextChanged(snapshot),
                                        ],
                                    )
                            })
                            &&& !all_two_flipped(players) ==> ({
                                &&& final(self).state == before.state
                                &&& final(self).context.current_player_idx
                                    == before.context.current_player_idx
                                &&& context_change_notified(
                                    before.subscriber,
                                    final(self).subscriber,
                                    final(self).context,
                                )
                            })
                        })
                    })
                }),
    {
        if self.state != GameState::DetermineFirstPlayer {
            return Err(PlayerTurnError::NotDeterminingFirstPlayer);
        }
        let want: String = player_id.to_owned();
        let player_idx = match find_player_index(&self.context.players, &want) {
            Some(player_idx) => player_idx,
            None => {
                return Err(PlayerTurnError::PlayerDoesntExist);
            },
        };
        proof {
            lemma_first_match_unique(self.context.players@, want@, player_idx as int);
        }
        if self.context.players[player_idx].spread.flipped_cards() >= 2 {
            return Err(PlayerTurnError::TooManyCardsFlipped);
        }
        match self.context.players[player_idx].spread.flip_at(row, column) {
            Ok(()) => (),
            Err(error) => {
                proof {
                    assert(self.context.players@ =~= old(self).context.players@);
                }
                return Err(PlayerTurnError::PlayerSpreadError(error));
            },
        }
        match self.check_if_first_player_determined() {
            Some(first_player_idx) => {
                self.context.current_player_idx = Some(first_player_idx);
                self.update_state(GameState::Active);
                let snapshot = self.context.clone();
                let ghost snap = snapshot;
                self.notify(SubscriberEvent::ContextChanged(snapshot));
                proof {
                    if old(self).subscriber is Some {
                        assert(cell_received(final(self).subscriber) =~= cell_received(
                            old(self).subscriber,
                        ) + seq![
                            SubscriberEvent::StateChanged(GameState::Active),
                            SubscriberEvent::ContextChanged(snap),
                        ]);
                    }
                }
            },
            None => {
                self.notify_context_changed();
            },
        }
        Ok(())
    }

    /// Count one more full pass over the players list.
    fn advance_round(&mut self)
        requires
            old(self).context.round < usize::MAX,
        ensures
            final(self).context.round == old(self).context.round + 1,
            final(self).state == old(self).state,
            final(self).context.players == old(self).context.players,
            final(self).context.current_player_idx == old(self).context.current_player_idx,
            final(self).context.deck == old(self).context.deck,
            final(self).context.discard_pile == old(self).context.discard_pile,
            final(self).context.finisher_idx == old(self).context.finisher_idx,
            final(self).context.winner_idx == old(self).context.winner_idx,
            final(self).subscriber == old(self).subscriber,
    {
        self.context.round = self.context.round + 1;
    }

    /// Hand the turn to the next player around the table, if a turn order
    /// has been fixed.
    fn advance_player_turn(&mut self)
        requires
            old(self).context.current_player_idx matches Some(current) ==> old(
                self,
            ).context.players@.len() > 0 && current < usize::MAX,
        ensures
            final(self).context.current_player_idx == next_of(
                old(self).context.current_player_idx,
                old(self).context.players@.len() as int,
            ),
            final(self).state == old(self).state,
            final(self).context.players == old(self).context.players,
            final(self).context.deck == old(self).context.deck,
            final(self).context.discard_pile == old(self).context.discard_pile,
            final(self).context.round == old(self).context.round,
            final(self).context.finisher_idx == old(self).context.finisher_idx,
            final(self).context.winner_idx == old(self).context.winner_idx,
            final(self).subscriber == old(self).subscriber,
    {
        if let Some(current_player_idx) = self.context.current_player_idx {
            self.context.current_player_idx = Some(
                (current_player_idx + 1) % self.context.players.len(),
            );
        }
    }

    /// Close the game out: every remaining card is turned face up and the
    /// first player with the lowest total becomes the winner.
    fn handle_end(&mut self)
        requires
            old(self).state == GameState::Ended ==> old(self).context.players@.len() > 0,
        ensures
            old(self).state != GameState::Ended ==> *final(self) == *old(self),
            old(self).state == GameState::Ended ==> ({
                let players = final(self).context.players@;
                &&& players.len() == old(self).context.players@.len()
                &&& forall|p: int|
                    0 <= p < players.len() ==> player_flip_all_of(
                        old(self).context.players@[p],
                        #[trigger] players[p],
                    )
                &&& final(self).context.winner_idx matches Some(winner) && is_first_min_score(
                    players,
                    winner as int,
                )
                &&& final(self).state == old(self).state
                &&& final(self).context.current_player_idx == old(
                    self,
                ).context.current_player_idx
                &&& final(self).context.deck@ == old(self).context.deck@
                &&& final(self).context.discard_pile@ == old(self).context.discard_pile@
                &&& final(self).context.round == old(self).context.round
                &&& final(self).context.finisher_idx == old(self).context.finisher_idx
                &&& final(self).subscriber == old(self).subscriber
            }),
    {
        if self.state != GameState::Ended {
            return;
        }
        let players_count = self.context.players.len();
        let mut i: usize = 0;
        while i < players_count
            invariant
                i <= players_count,
                players_count == old(self).context.players@.len(),
                self.context.players@.len() == players_count,
                forall|p: int|
                    0 <= p < i ==> player_flip_all_of(
                        old(self).context.players@[p],
                        #[trigger] self.context.players@[p],
                    ),
                forall|p: int|
                    i <= p < players_count ==> #[trigger] self.context.players@[p] == old(
                        self,
                    ).context.players@[p],
                self.state == old(self).state,
                self.context.current_player_idx == old(self).context.current_player_idx,
                self.context.deck@ == old(self).context.deck@,
                self.context.discard_pile@ == old(self).context.discard_pile@,
                self.context.round == old(self).context.round,
                self.context.finisher_idx == old(self).context.finisher_idx,
                self.context.winner_idx == old(self).context.winner_idx,
                self.subscriber == old(self).subscriber,
            decreases players_count - i,
        {
            self.context.players[i].spread.flip_all();
            i += 1;
        }
        let mut winner: usize = 0;
        let mut best_score: i32 = self.context.players[0].spread.score();
        let mut i: usize = 1;
        while i < players_count
            invariant
                1 <= i <= players_count,
                winner < i,
                players_count == self.context.players@.len(),
                best_score as int == self.context.players@[winner as int].spread.spec_score(),
                forall|j: int|
                    0 <= j < winner ==> (#[trigger] self.context.players@[j]).spread.spec_score()
                        > best_score as int,
                forall|j: int|
                    winner <= j < i ==> (#[trigger] self.context.players@[j]).spread.spec_score()
                        >= best_score as int,
            decreases players_count - i,
        {
            let score = self.context.players[i].spread.score();
            if score < best_score {
                winner = i;
                best_score = score;
            }
            i += 1;
        }
        self.context.winner_idx = Some(winner);
    }

    /// Close a turn: the acting player swaps the held card into a cell or
    /// flips a cell and discards the held card; the touched column is
    /// cleared if it matches; and the game ends, enters its last round, or
    /// passes the turn on.
    pub fn end_player_turn(&mut self, player_id: &str, action: EndAction) -> (result: Result<
        (),
        PlayerTurnError,
    >)
        requires
            old(self).state == GameState::LastRound ==> old(self).context.finisher_idx is Some,
            old(self).context.current_player_idx matches Some(current) ==> current < usize::MAX,
        ensures
            old(self).state != GameState::Active && old(self).state != GameState::LastRound
                ==> result == Err::<(), PlayerTurnError>(PlayerTurnError::GameNotStarted)
                && *final(self) == *old(self),
            (old(self).state == GameState::Active || old(self).state == GameState::LastRound)
                && no_player_has_id(old(self).context.players@, player_id@) ==> result == Err::<
                (),
                PlayerTurnError,
            >(PlayerTurnError::PlayerDoesntExist) && *final(self) == *old(self),
            (old(self).state == GameState::Active || old(self).state == GameState::LastRound)
                ==> forall|i: int|
                #[trigger] is_first_match(old(self).context.players@, player_id@, i) ==> ({
                    let before = *old(self);
                    let player = before.context.players@[i];
                    let held = cell_card(player.holding);
                    &&& !is_players_turn(before.context.current_player_idx, i) ==> result
                        == Err::<(), PlayerTurnError>(PlayerTurnError::NotYourTurn) && *final(self)
                        == before
                    &&& is_players_turn(before.context.current_player_idx, i) && player.holding
                        is None ==> result == Err::<(), PlayerTurnError>(
                        PlayerTurnError::TurnNotStarted,
                    ) && game_matches(*final(self), before)
                    &&& is_players_turn(before.context.current_player_idx, i) && player.holding
                        is Some ==> ({
                        &&& action matches EndAction::Swap { row, column } ==> ({
                            let cell = player.spread.grid()[row as int][column as int];
                            &&& row >= 3 ==> ({
                                &&& result matches Err(PlayerTurnError::PlayerSpreadError(
                                    SpreadActionError::RowDoesntExist(_),
                                ))
                                &&& game_matches(*final(self), before)
                            })
                            &&& row < 3 && column >= 4 ==> ({
                                &&& result matches Err(PlayerTurnError::PlayerSpreadError(
                                    SpreadActionError::ColumnDoesntExist(_),
                                ))
                                &&& game_matches(*final(self), before)
                            })
                            &&& row < 3 && column < 4 && cell is None ==> result == Err::<
                                (),
                                PlayerTurnError,
                            >(PlayerTurnError::PlayerSpreadError(SpreadActionError::NoCardFound))
                                && game_matches(*final(self), before)
                            &&& row < 3 && column < 4 && cell is Some ==> ({
                                let grid2 = player.spread.grid().update(
                                    row as int,
                                    player.spread.grid()[row as int].update(
                                        column as int,
                                        Some(held),
                                    ),
                                );
                                &&& result == Ok::<(), PlayerTurnError>(())
                                &&& turn_closed(
                                    before,
                                    *final(self),
                                    i,
                                    after_clear(grid2, column as int),
                                    before.context.discard_pile@.push(cell_card(cell)),
                                )
                            })
                        })
                        &&& action matches EndAction::Flip { row, column } ==> ({
                            let cell = player.spread.grid()[row as int][column as int];
                            &&& row >= 3 ==> ({
                                &&& result matches Err(PlayerTurnError::PlayerSpreadError(
                                    SpreadActionError::RowDoesntExist(_),
                                ))
                                &&& game_matches(*final(self), before)
                            })
                            &&& row < 3 && column >= 4 ==> ({
                                &&& result matches Err(PlayerTurnError::PlayerSpreadError(
                                    SpreadActionError::ColumnDoesntExist(_),
                                ))
                                &&& game_matches(*final(self), before)
                            })
                            &&& row < 3 && column < 4 && cell is None ==> result == Err::<
                                (),
                                PlayerTurnError,
                            >(PlayerTurnError::PlayerSpreadError(SpreadActionError::NoCardFound))
                                && game_matches(*final(self), before)
                            &&& row < 3 && column < 4 && cell is Some && cell_is_flipped(cell)
                                ==> result == Err::<(), PlayerTurnError>(
                                PlayerTurnError::PlayerSpreadError(
                                    SpreadActionError::CardAlreadyFlipped,
                                ),
                            ) && game_matches(*final(self), before)
                            &&& row < 3 && column < 4 && cell is Some && !cell_is_flipped(cell)
                                ==> ({
                                let grid2 = player.spread.grid().update(
                                    row as int,
                                    player.spread.grid()[row as int].update(
                                        column as int,
                                        crate::card::flip_cell(cell),
                                    ),
                                );
                                &&& result == Ok::<(), PlayerTurnError>(())
                                &&& turn_closed(
                                    before,
                                    *final(self),
                                    i,
                                    after_clear(grid2, column as int),
                                    before.context.discard_pile@.push(held),
                                )
                            })
                        })
                    })
                }),
    {
        if self.state != GameState::Active && self.state != GameState::LastRound {
            return Err(PlayerTurnError::GameNotStarted);
        }
        let want: String = player_id.to_owned();
        let player_idx = match find_player_index(&self.context.players, &want) {
            Some(player_idx) => player_idx,
            None => {
                return Err(PlayerTurnError::PlayerDoesntExist);
            },
        };
        proof {
            lemma_first_match_unique(self.context.players@, want@, player_idx as int);
        }
        match self.check_if_player_turn(player_idx) {
            Ok(()) => (),
            Err(error) => {
                return Err(error);
            },
        }
        let players_count = self.context.players.len();
        let card_from_hand = match self.context.players[player_idx].release() {
            Some(card) => card,
            None => {
                proof {
                    assert(self.context.players@ =~= old(self).context.players@);
                }
                return Err(PlayerTurnError::TurnNotStarted);
            },
        };
        let ghost player0 = old(self).context.players@[player_idx as int];
        let ghost grid2 = match action {
            EndAction::Swap { row, column } => player0.spread.grid().update(
                row as int,
                player0.spread.grid()[row as int].update(
                    column as int,
                    Some(cell_card(player0.holding)),
                ),
            ),
            EndAction::Flip { row, column } => player0.spread.grid().update(
                row as int,
                player0.spread.grid()[row as int].update(
                    column as int,
                    crate::card::flip_cell(
                        player0.spread.grid()[row as int][column as int],
                    ),
                ),
            ),
        };
        let column = match action {
            EndAction::Swap { row, column } => {
                match self.context.players[player_idx].spread.take_from(row, column) {
                    Ok(selected_card) => {
                        match self.context.players[player_idx].spread.place_at(
                            card_from_hand,
                            row,
                            column,
                        ) {
                            Ok(()) => (),
                            Err(error) => {
                                return Err(PlayerTurnError::PlayerSpreadError(error));
                            },
                        }
                        proof {
                            lemma_swap_grid(
                                player0.spread.grid(),
                                row as int,
                                column as int,
                                card_from_hand,
                            );
                            assert(self.context.players@[player_idx as int].spread.grid()
                                == grid2);
                        }
                        self.context.discard_pile.put(selected_card);
                        column
                    },
                    Err(error) => {
                        self.context.players[player_idx].holding = Some(card_from_hand);
                        proof {
                            assert(self.context.players@ =~= old(self).context.players@);
                        }
                        return Err(PlayerTurnError::PlayerSpreadError(error));
                    },
                }
            },
            EndAction::Flip { row, column } => {
                match self.context.players[player_idx].spread.flip_at(row, column) {
                    Ok(()) => {
                        proof {
                            assert(self.context.players@[player_idx as int].spread.grid()
                                == grid2);
                        }
                        self.context.discard_pile.put(card_from_hand);
                        column
                    },
                    Err(error) => {
                        self.context.players[player_idx].holding = Some(card_from_hand);
                        proof {
                            assert(self.context.players@ =~= old(self).context.players@);
                        }
                        return Err(PlayerTurnError::PlayerSpreadError(error));
                    },
                }
            },
        };
        match self.context.players[player_idx].spread.remove_column_if_matches(column) {
            Ok(()) => (),
            Err(error) => {
                return Err(PlayerTurnError::PlayerSpreadError(error));
            },
        }
        proof {
            assert(self.context.players@[player_idx as int].spread.grid() == after_clear(
                grid2,
                column as int,
            ));
        }
        if self.state == GameState::LastRound {
            let finisher_idx: usize = match self.context.finisher_idx {
                Some(finisher_idx) => finisher_idx,
                None => {
                    proof {
                        assert(false);
                    }
                    0
                },
            };
            if player_idx == last_player_idx(players_count, finisher_idx) {
                self.update_state(GameState::Ended);
                self.handle_end();
                let snapshot = self.context.clone();
                let ghost snap = snapshot;
                self.notify(SubscriberEvent::ContextChanged(snapshot));
                proof {
                    if old(self).subscriber is Some {
                        assert(cell_received(final(self).subscriber) =~= cell_received(
                            old(self).subscriber,
                        ) + seq![
                            SubscriberEvent::StateChanged(GameState::Ended),
                            SubscriberEvent::ContextChanged(snap),
                        ]);
                    }
                }
                return Ok(());
            }
        }
        let mut entered_last_round: bool = false;
        let acted_all_flipped = self.context.players[player_idx].spread.is_all_flipped();
        if self.state == GameState::Active && acted_all_flipped {
            self.context.finisher_idx = Some(player_idx);
            self.update_state(GameState::LastRound);
            entered_last_round = true;
        }
        if player_idx == self.context.players.len() {
            self.advance_round();
        }
        self.advance_player_turn();
        let snapshot = self.context.clone();
        let ghost snap = snapshot;
        self.notify(SubscriberEvent::ContextChanged(snapshot));
        proof {
            if old(self).subscriber is Some {
                if entered_last_round {
                    assert(cell_received(final(self).subscriber) =~= cell_received(
                        old(self).subscriber,
                    ) + seq![
                        SubscriberEvent::StateChanged(GameState::LastRound),
                        SubscriberEvent::ContextChanged(snap),
                    ]);
                } else {
                    assert(cell_received(final(self).subscriber).drop_last() =~= cell_received(
                        old(self).subscriber,
                    ));
                }
            }
        }
        Ok(())
    }

    /// Start the game without choosing a first player up front: after the
    /// deal the game waits for the flip-off to pick one.
    pub fn start(&mut self) -> (result: Result<(), GameStartupError>)
        ensures
            start_outcome(
                *old(self),
                *final(self),
                GameOptions { first_player_idx: None },
                result,
            ),
    {
        self.handle_start(GameOptions { first_player_idx: None })
    }

    /// Start the game with explicit options.
    pub fn start_with_options(&mut self, options: GameOptions) -> (result: Result<
        (),
        GameStartupError,
    >)
        ensures
            start_outcome(*old(self), *final(self), options, result),
    {
        self.handle_start(options)
    }

    /// The shared startup path: shuffle, prime the discard pile, deal, and
    /// enter play or the flip-off.
    fn handle_start(&mut self, options: GameOptions) -> (result: Result<(), GameStartupError>)
        ensures
            start_outcome(*old(self), *final(self), options, result),
    {
        if self.state == GameState::Active || self.state == GameState::LastRound || self.state
            == GameState::Ended {
            return Err(GameStartupError::GameAlreadyStarted);
        } else if self.context.players.len() < 2 {
            return Err(GameStartupError::NotEnoughPlayers);
        } else if self.state == GameState::WaitingForPlayers {
            self.update_state(GameState::Startup);
            self.context.deck.shuffle();
            let ghost shuffled_deck = self.context.deck@;
            let top_card = match self.context.deck.draw() {
                Some(card) => card,
                None => {
                    return Err(GameStartupError::DeckEmpty);
                },
            };
            self.context.discard_pile.put(top_card);
            let ghost mixed = self.context.deck@.push(top_card);
            proof {
                assert(mixed =~= shuffled_deck);
                assert(mixed.drop_last() =~= self.context.deck@);
            }
            match self.deal_cards_to_players() {
                Ok(()) => (),
                Err(error) => {
                    return Err(error);
                },
            }
            proof {
                assert(self.context.deck@ =~= mixed.take(
                    mixed.len() - 1 - 12 * old(self).context.players@.len(),
                ));
            }
            if let Some(first_player_idx) = options.first_player_idx {
                self.context.current_player_idx = Some(first_player_idx);
                self.update_state(GameState::Active);
            } else {
                self.update_state(GameState::DetermineFirstPlayer);
            }
            let snapshot = self.context.clone();
            let ghost snap = snapshot;
            self.notify(SubscriberEvent::ContextChanged(snapshot));
            proof {
                crate::event::lemma_started_from_witness(
                    old(self).context,
                    final(self).context,
                    options,
                    mixed,
                );
                if old(self).subscriber is Some {
                    assert(cell_received(final(self).subscriber) =~= cell_received(
                        old(self).subscriber,
                    ) + seq![
                        SubscriberEvent::StateChanged(GameState::Startup),
                        SubscriberEvent::StateChanged(final(self).state),
                        SubscriberEvent::ContextChanged(snap),
                    ]);
                }
                if crate::card::all_face_down(old(self).context.deck@) {
                    crate::card::lemma_multiset_face_down(old(self).context.deck@, mixed);
                    assert forall|p: int, r: int, c: int|
                        0 <= p < final(self).context.players@.len() && 0 <= r < 3 && 0 <= c < 4
                        implies (#[trigger] final(self).context.players@[p].spread.grid()[r][c])
                        is Some && !cell_is_flipped(
                        final(self).context.players@[p].spread.grid()[r][c],
                    ) by {
                        assert(crate::event::player_dealt_upto(
                            old(self).context.players@[p],
                            final(self).context.players@[p],
                            mixed.drop_last(),
                            p,
                            12,
                        ));
                        let deck1 = mixed.drop_last();
                        assert(final(self).context.players@[p].spread.grid()[r][c] == Some(
                            deck1[deck1.len() - 1 - (12 * p + 4 * r + c)],
                        ));
                        assert(deck1[deck1.len() - 1 - (12 * p + 4 * r + c)] == mixed[deck1.len()
                            - 1 - (12 * p + 4 * r + c)]);
                    }
                }
            }
        }
        Ok(())
    }

    /// Deal each player's spread; a deal happens only during startup.
    fn deal_cards_to_players(&mut self) -> (result: Result<(), GameStartupError>)
        ensures
            old(self).state != GameState::Startup ==> result is Ok && *final(self) == *old(self),
            old(self).state == GameState::Startup ==> final(self).state == old(self).state
                && final(self).subscriber == old(self).subscriber && crate::event::deal_outcome(
                old(self).context,
                final(self).context,
                result,
            ),
    {
        if self.state == GameState::Startup {
            crate::event::deal_cards_to_players(&mut self.context)
        } else {
            Ok(())
        }
    }

    /// The first player carrying the given identifier, if any.
    pub fn get_player(&self, player_id: &str) -> (result: Option<&Player>)
        ensures
            result is None <==> no_player_has_id(self.context.players@, player_id@),
            result matches Some(player) ==> exists|i: int|
                is_first_match(self.context.players@, player_id@, i)
                    && *player == self.context.players@[i],
    {
        let want: String = player_id.to_owned();
        match find_player_index(&self.context.players, &want) {
            Some(i) => Some(&self.context.players[i]),
            None => None,
        }
    }
}

/// The mailbox a subscription slot holds; empty where nobody subscribed.
pub open spec fn cell_received(slot: Option<Subscriber>) -> Seq<SubscriberEvent> {
    match slot {
        Some(subscriber) => subscriber.received@,
        None => Seq::<SubscriberEvent>::empty(),
    }
}

/// Whether two games describe the same position, card for card, with the
/// same subscription slot and mailbox.
pub open spec fn game_matches(a: StratoGame, b: StratoGame) -> bool {
    &&& a.state == b.state
    &&& context_matches(a.context, b.context)
    &&& a.subscriber == b.subscriber
}

/// Whether the player at position `i` may act, given the current turn
/// pointer: the pointer names them, or none has been set.
pub open spec fn is_players_turn(current_player_idx: Option<usize>, i: int) -> bool {
    match current_player_idx {
        Some(current) => i == current as int,
        None => true,
    }
}

/// The player as they stand after taking a card in hand: the card turns
/// face up and everything else is theirs as before.
pub open spec fn held_player(player: Player, card: Card) -> Player {
    Player { holding: Some(Card { value: card.value, flipped: true }), ..player }
}

/// What every successful turn action leaves alone, and its one notification.
pub open spec fn turn_frame(before: StratoGame, after: StratoGame) -> bool {
    &&& after.state == before.state
    &&& after.context.current_player_idx == before.context.current_player_idx
    &&& after.context.round == before.context.round
    &&& after.context.finisher_idx == before.context.finisher_idx
    &&& after.context.winner_idx == before.context.winner_idx
    &&& context_change_notified(before.subscriber, after.subscriber, after.context)
}

/// Two first matches for one identifier are the same position.
proof fn lemma_first_match_unique(players: Seq<Player>, id: Seq<char>, i: int)
    requires
        is_first_match(players, id, i),
    ensures
        forall|j: int| #[trigger] is_first_match(players, id, j) ==> j == i,
{
    assert forall|j: int| #[trigger] is_first_match(players, id, j) implies j == i by {
        if j < i {
            assert(players[j].id@ != id);
        } else if j > i {
            assert(players[i].id@ != id);
        }
    }
}

/// Whether every player has exactly two cards face up.
pub open spec fn all_two_flipped(players: Seq<Player>) -> bool {
    forall|i: int|
        0 <= i < players.len() ==> (#[trigger] players[i]).spread.spec_flipped_count() == 2
}

/// Whether `i` is the first position whose spread score no other exceeds.
pub open spec fn is_first_max_score(players: Seq<Player>, i: int) -> bool {
    &&& 0 <= i < players.len()
    &&& forall|j: int|
        0 <= j < i ==> (#[trigger] players[j]).spread.spec_score() < players[i].spread.spec_score()
    &&& forall|j: int|
        i <= j < players.len() ==> (#[trigger] players[j]).spread.spec_score()
            <= players[i].spread.spec_score()
}

/// Whether `i` is the first position whose spread score no other undercuts.
pub open spec fn is_first_min_score(players: Seq<Player>, i: int) -> bool {
    &&& 0 <= i < players.len()
    &&& forall|j: int|
        0 <= j < i ==> (#[trigger] players[j]).spread.spec_score() > players[i].spread.spec_score()
    &&& forall|j: int|
        i <= j < players.len() ==> (#[trigger] players[j]).spread.spec_score()
            >= players[i].spread.spec_score()
}

/// The player as they stand after one of their cells was turned face up.
pub open spec fn player_flipped_at(before: Player, after: Player, row: int, column: int) -> bool {
    &&& after.id == before.id
    &&& after.holding == before.holding
    &&& after.spread.grid() == before.spread.grid().update(
        row,
        before.spread.grid()[row].update(
            column,
            crate::card::flip_cell(before.spread.grid()[row][column]),
        ),
    )
}

/// The card a cell holds after the whole grid is turned face up.
pub open spec fn grid_flip_all(grid: Seq<Seq<Option<Card>>>) -> Seq<Seq<Option<Card>>> {
    Seq::new(3, |r: int| Seq::new(4, |c: int| crate::card::flip_cell(grid[r][c])))
}

/// Whether every occupied cell of a grid is face up.
pub open spec fn grid_all_done(grid: Seq<Seq<Option<Card>>>) -> bool {
    forall|r: int, c: int|
        0 <= r < 3 && 0 <= c < 4 ==> crate::card::cell_done(#[trigger] grid[r][c])
}

/// A grid after the column-clearing check: cleared where three face-up cards
/// of one value stand, untouched otherwise.
pub open spec fn after_clear(grid: Seq<Seq<Option<Card>>>, column: int) -> Seq<
    Seq<Option<Card>>,
> {
    if crate::card::column_clears(grid, column) {
        Seq::new(3, |r: int| grid[r].update(column, None))
    } else {
        grid
    }
}

/// The player as they stand with their whole spread turned face up.
pub open spec fn player_flip_all_of(before: Player, after: Player) -> bool {
    &&& after.id == before.id
    &&& after.holding == before.holding
    &&& after.spread.grid() == grid_flip_all(before.spread.grid())
}

/// The index an optional position stands for; -1 where there is none.
pub open spec fn idx_of(position: Option<usize>) -> int {
    match position {
        Some(index) => index as int,
        None => -1,
    }
}

/// The turn pointer after one turn: the next position around the table.
pub open spec fn next_of(current_player_idx: Option<usize>, count: int) -> Option<usize> {
    match current_player_idx {
        Some(current) => Some((((current as int) + 1) % count) as usize),
        None => None,
    }
}

/// The position whose turn closes the last round: the one just before the
/// finisher, wrapping around.
pub open spec fn spec_last_player_idx(players_count: int, finisher_idx: int) -> int {
    if finisher_idx == 0 {
        players_count - 1
    } else {
        finisher_idx - 1
    }
}

/// What closing a turn leaves behind once the spread action has gone
/// through: the acting player's spread stands at `grid3`, their hand is
/// empty, the discard pile stands at `discard2`, and the game either ends,
/// enters the last round, or moves to the next player.
pub open spec fn turn_closed(
    before: StratoGame,
    after: StratoGame,
    i: int,
    grid3: Seq<Seq<Option<Card>>>,
    discard2: Seq<Card>,
) -> bool {
    let count = before.context.players@.len() as int;
    let ending = before.state == GameState::LastRound && i == spec_last_player_idx(
        count,
        idx_of(before.context.finisher_idx),
    );
    let finishing = !ending && before.state == GameState::Active && grid_all_done(grid3);
    &&& after.context.deck@ == before.context.deck@
    &&& after.context.discard_pile@ == discard2
    &&& after.context.round == before.context.round
    &&& after.context.players@.len() == count
    &&& ending ==> ({
        &&& after.state == GameState::Ended
        &&& after.context.current_player_idx == before.context.current_player_idx
        &&& after.context.finisher_idx == before.context.finisher_idx
        &&& forall|j: int|
            0 <= j < count && j != i ==> player_flip_all_of(
                before.context.players@[j],
                #[trigger] after.context.players@[j],
            )
        &&& after.context.players@[i].id == before.context.players@[i].id
        &&& after.context.players@[i].holding is None
        &&& after.context.players@[i].spread.grid() == grid_flip_all(grid3)
        &&& after.context.winner_idx matches Some(winner) && is_first_min_score(
            after.context.players@,
            winner as int,
        )
        &&& exists|snapshot: GameContext|
            #[trigger] context_matches(snapshot, after.context) && notified(
                before.subscriber,
                after.subscriber,
                seq![
                    SubscriberEvent::StateChanged(GameState::Ended),
                    SubscriberEvent::ContextChanged(snapshot),
                ],
            )
    })
    &&& !ending ==> ({
        &&& forall|j: int|
            0 <= j < count && j != i ==> #[trigger] after.context.players@[j]
                == before.context.players@[j]
        &&& after.context.players@[i].id == before.context.players@[i].id
        &&& after.context.players@[i].holding is None
        &&& after.context.players@[i].spread.grid() == grid3
        &&& after.context.current_player_idx == next_of(
            before.context.current_player_idx,
            count,
        )
        &&& after.context.winner_idx == before.context.winner_idx
    })
    &&& finishing ==> ({
        &&& after.state == GameState::LastRound
        &&& after.context.finisher_idx == Some(i as usize)
        &&& exists|snapshot: GameContext|
            #[trigger] context_matches(snapshot, after.context) && notified(
                before.subscriber,
                after.subscriber,
                seq![
                    SubscriberEvent::StateChanged(GameState::LastRound),
                    SubscriberEvent::ContextChanged(snapshot),
                ],
            )
    })
    &&& !ending && !finishing ==> ({
        &&& after.state == before.state
        &&& after.context.finisher_idx == before.context.finisher_idx
        &&& context_change_notified(before.subscriber, after.subscriber, after.context)
    })
}

/// What starting a game leaves behind, case by case: refusal while active
/// or short of players, a no-op outside the waiting room, and otherwise the
/// startup sequence with its notifications.
pub open spec fn start_outcome(
    before: StratoGame,
    after: StratoGame,
    options: GameOptions,
    result: Result<(), GameStartupError>,
) -> bool {
    let n = before.context.players@.len();
    let deck_len = before.context.deck@.len();
    let needed = 1 + 12 * n;
    let already_started = before.state == GameState::Active || before.state == GameState::LastRound
        || before.state == GameState::Ended;
    &&& already_started ==> result == Err::<(), GameStartupError>(
        GameStartupError::GameAlreadyStarted,
    ) && after == before
    &&& !already_started && n < 2 ==> result == Err::<(), GameStartupError>(
        GameStartupError::NotEnoughPlayers,
    ) && after == before
    &&& !already_started && before.state != GameState::WaitingForPlayers && n >= 2 ==> result
        == Ok::<(), GameStartupError>(()) && after == before
    &&& before.state == GameState::WaitingForPlayers && n >= 2 ==> ({
        &&& deck_len == 0 ==> ({
            &&& result == Err::<(), GameStartupError>(GameStartupError::DeckEmpty)
            &&& after.state == GameState::Startup
            &&& after.context.players@ == before.context.players@
            &&& after.context.deck@.len() == 0
            &&& after.context.discard_pile@ == before.context.discard_pile@
            &&& after.context.current_player_idx == before.context.current_player_idx
            &&& after.context.round == before.context.round
            &&& after.context.finisher_idx == before.context.finisher_idx
            &&& after.context.winner_idx == before.context.winner_idx
            &&& notified(
                before.subscriber,
                after.subscriber,
                seq![SubscriberEvent::StateChanged(GameState::Startup)],
            )
        })
        &&& deck_len > 0 && crate::event::spreads_empty(before.context.players@) && deck_len
            < needed ==> ({
            &&& result == Err::<(), GameStartupError>(GameStartupError::DeckEmpty)
            &&& after.state == GameState::Startup
            &&& after.context.players@.len() == n
            &&& forall|p: int|
                0 <= p < n ==> (#[trigger] after.context.players@[p]).id
                    == before.context.players@[p].id && after.context.players@[p].holding
                    == before.context.players@[p].holding
            &&& notified(
                before.subscriber,
                after.subscriber,
                seq![SubscriberEvent::StateChanged(GameState::Startup)],
            )
        })
        &&& deck_len >= needed && !crate::event::spreads_empty(before.context.players@) ==> ({
            &&& result == Err::<(), GameStartupError>(
                GameStartupError::PlayerSpreadError(SpreadActionError::SpotTaken),
            )
            &&& after.state == GameState::Startup
            &&& after.context.players@.len() == n
            &&& forall|p: int|
                0 <= p < n ==> (#[trigger] after.context.players@[p]).id
                    == before.context.players@[p].id && after.context.players@[p].holding
                    == before.context.players@[p].holding
            &&& notified(
                before.subscriber,
                after.subscriber,
                seq![SubscriberEvent::StateChanged(GameState::Startup)],
            )
        })
        &&& deck_len >= needed && crate::event::spreads_empty(before.context.players@) ==> ({
            &&& result == Ok::<(), GameStartupError>(())
            &&& after.state == if options.first_player_idx is Some {
                GameState::Active
            } else {
                GameState::DetermineFirstPlayer
            }
            &&& crate::event::started_from(before.context, after.context, options)
            &&& after.context.players@.len() == n
            &&& forall|p: int|
                0 <= p < n ==> (#[trigger] after.context.players@[p]).id
                    == before.context.players@[p].id && after.context.players@[p].holding
                    == before.context.players@[p].holding
            &&& after.context.deck@.len() == deck_len - 1 - 12 * n
            &&& after.context.discard_pile@.len() == before.context.discard_pile@.len() + 1
            &&& crate::card::all_face_down(before.context.deck@) ==> forall|p: int, r: int, c: int|
                0 <= p < n && 0 <= r < 3 && 0 <= c < 4 ==> (
                #[trigger] after.context.players@[p].spread.grid()[r][c]) is Some
                    && !cell_is_flipped(after.context.players@[p].spread.grid()[r][c])
            &&& exists|snapshot: GameContext|
                #[trigger] context_matches(snapshot, after.context) && notified(
                    before.subscriber,
                    after.subscriber,
                    seq![
                        SubscriberEvent::StateChanged(GameState::Startup),
                        SubscriberEvent::StateChanged(after.state),
                        SubscriberEvent::ContextChanged(snapshot),
                    ],
                )
        })
    })
}

/// Taking a card out of a cell and placing another there is one update.
proof fn lemma_swap_grid(grid: Seq<Seq<Option<Card>>>, row: int, column: int, held: Card)
    requires
        0 <= row < grid.len(),
        0 <= column < grid[row].len(),
    ensures
        grid.update(row, grid[row].update(column, None)).update(
            row,
            grid.update(row, grid[row].update(column, None))[row].update(column, Some(held)),
        ) == grid.update(row, grid[row].update(column, Some(held))),
{
    let cleared = grid.update(row, grid[row].update(column, None));
    assert(cleared[row] == grid[row].update(column, None));
    assert(cleared[row].update(column, Some(held)) =~= grid[row].update(column, Some(held)));
    assert(cleared.update(row, cleared[row].update(column, Some(held))) =~= grid.update(
        row,
        grid[row].update(column, Some(held)),
    ));
}

/// The position whose turn closes the last round: the one just before the
/// finisher, wrapping around.
fn last_player_idx(players_count: usize, finisher_idx: usize) -> (result: usize)
    requires
        players_count > 0,
    ensures
        result as int == spec_last_player_idx(players_count as int, finisher_idx as int),
{
    if finisher_idx == 0 {
        players_count - 1
    } else {
        finisher_idx - 1
    }
}

impl Subscribe for StratoGame {
    fn subscribe(&mut self, subscriber: Subscriber) {
        StratoGame::subscribe(self, subscriber)
    }

    fn unsubscribe(&mut self) {
        StratoGame::unsubscribe(self)
    }

    fn notify(&mut self, event: SubscriberEvent) {
        StratoGame::notify(self, event)
    }
}

} // verus!
