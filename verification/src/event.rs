//! Game events as values: actions that take a context and a state and
//! return the new ones, and the dealing routine they share with the game.

use crate::card::Card;
use crate::game::{GameContext, GameOptions, GameStartupError, GameState};
use crate::player::Player;
use vstd::prelude::*;

verus! {

broadcast use crate::card::lemma_grid_dims;

/// What an action hands back: possibly a new state, possibly a new context.
pub type ActionResult = Result<(Option<GameState>, Option<GameContext>), GameStartupError>;

/// An event that can be applied to a game position.
pub trait Action {
    fn execute(&self, context: GameContext, state: GameState) -> ActionResult;
}

/// The events a game accepts before play begins.
#[derive(Debug)]
pub enum GameEvent<'a> {
    GameStart(GameStartAction),
    GameStartWithOptions(GameStartWithOptionsAction),
    RegisterPlayer(RegisterPlayerAction<'a>),
}

/// Start the game, leaving the first player to the flip-off.
#[derive(Debug, Clone, PartialEq)]
pub struct GameStartAction;

impl Action for GameStartAction {
    fn execute(&self, context: GameContext, state: GameState) -> ActionResult {
        handle_start(context, state, GameOptions { first_player_idx: None })
    }
}

/// Start the game with explicit options.
#[derive(Debug, Clone, PartialEq)]
pub struct GameStartWithOptionsAction(pub GameOptions);

impl Action for GameStartWithOptionsAction {
    fn execute(&self, context: GameContext, state: GameState) -> ActionResult {
        handle_start(context, state, self.0)
    }
}

/// Register a player under the given identifier.
#[derive(Debug, Clone, PartialEq)]
pub struct RegisterPlayerAction<'a>(pub &'a str);

impl<'a> Action for RegisterPlayerAction<'a> {
    fn execute(&self, context: GameContext, _state: GameState) -> ActionResult {
        let mut context = context;
        let player = Player::new(self.0);
        context.players.push(player);
        Ok((None, Some(context)))
    }
}

/// Whether every cell of every player's spread is empty.
pub open spec fn spreads_empty(players: Seq<Player>) -> bool {
    forall|p: int, r: int, c: int|
        0 <= p < players.len() && 0 <= r < 3 && 0 <= c < 4 ==> (#[trigger] players[p].spread.grid()[r][c]) is None
}

/// Whether player `p` has been dealt the top of `deck` into the first `upto`
/// cells, in row-major order, with the rest of the player untouched.
pub open spec fn player_dealt_upto(
    before: Player,
    after: Player,
    deck: Seq<Card>,
    p: int,
    upto: int,
) -> bool {
    &&& after.id == before.id
    &&& after.holding == before.holding
    &&& forall|r: int, c: int|
        0 <= r < 3 && 0 <= c < 4 && 4 * r + c < upto ==> before.spread.grid()[r][c] is None && (
        #[trigger] after.spread.grid()[r][c]) == Some(deck[deck.len() - 1 - (12 * p + 4 * r + c)])
    &&& forall|r: int, c: int|
        0 <= r < 3 && 0 <= c < 4 && 4 * r + c >= upto ==> (#[trigger] after.spread.grid()[r][c])
            == before.spread.grid()[r][c]
}

/// Whether every player was dealt twelve cards off the top of `deck`, in
/// registration order, row-major within each spread.
pub open spec fn dealt_exactly(
    before: Seq<Player>,
    after: Seq<Player>,
    deck: Seq<Card>,
) -> bool {
    &&& after.len() == before.len()
    &&& forall|p: int|
        0 <= p < before.len() ==> #[trigger] player_dealt_upto(before[p], after[p], deck, p, 12)
}

/// What dealing leaves behind: success exactly when the spreads start empty
/// and the deck holds twelve cards per player; identities, held cards and
/// everything besides the deck and the spreads survive either way.
pub open spec fn deal_outcome(
    before: GameContext,
    after: GameContext,
    result: Result<(), GameStartupError>,
) -> bool {
    &&& after.players@.len() == before.players@.len()
    &&& after.current_player_idx == before.current_player_idx
    &&& after.discard_pile@ == before.discard_pile@
    &&& after.round == before.round
    &&& after.finisher_idx == before.finisher_idx
    &&& after.winner_idx == before.winner_idx
    &&& forall|p: int|
        0 <= p < before.players@.len() ==> (#[trigger] after.players@[p]).id
            == before.players@[p].id && after.players@[p].holding == before.players@[p].holding
    &&& result is Ok <==> spreads_empty(before.players@) && before.deck@.len() >= 12
        * before.players@.len()
    &&& result is Ok ==> dealt_exactly(before.players@, after.players@, before.deck@)
        && after.deck@ == before.deck@.take(before.deck@.len() - 12 * before.players@.len())
    &&& spreads_empty(before.players@) && before.deck@.len() < 12 * before.players@.len()
        ==> result == Err::<(), GameStartupError>(GameStartupError::DeckEmpty)
    &&& !spreads_empty(before.players@) && before.deck@.len() >= 12 * before.players@.len()
        ==> result == Err::<(), GameStartupError>(
        GameStartupError::PlayerSpreadError(crate::card::SpreadActionError::SpotTaken),
    )
}

/// Deal twelve cards off the top of the deck to every player, row by row.
/// Dealing stops at the first failure, leaving earlier cards where they went.
#[verifier::rlimit(60)]
pub fn deal_cards_to_players(context: &mut GameContext) -> (result: Result<(), GameStartupError>)
    ensures
        deal_outcome(*old(context), *final(context), result),
{
    let ghost players0 = old(context).players@;
    let ghost deck0 = old(context).deck@;
    let ghost n = players0.len() as int;

    let player_count = context.players.len();
    let mut i: usize = 0;
    while i < player_count
        invariant
            i <= player_count,
            player_count == n,
            context.players@.len() == n,
            12 * i <= deck0.len(),
            context.deck@ == deck0.take(deck0.len() - 12 * i),
            context.current_player_idx == old(context).current_player_idx,
            context.discard_pile@ == old(context).discard_pile@,
            context.round == old(context).round,
            context.finisher_idx == old(context).finisher_idx,
            context.winner_idx == old(context).winner_idx,
            forall|p: int|
                0 <= p < i ==> #[trigger] player_dealt_upto(
                    players0[p],
                    context.players@[p],
                    deck0,
                    p,
                    12,
                ),
            forall|p: int| i <= p < n ==> #[trigger] context.players@[p] == players0[p],
        decreases player_count - i,
    {
        let mut row: usize = 0;
        while row < 3
            invariant
                row <= 3,
                i < n,
                context.players@.len() == n,
                12 * i + 4 * row <= deck0.len(),
                context.deck@ == deck0.take(deck0.len() - (12 * i + 4 * row)),
                context.current_player_idx == old(context).current_player_idx,
                context.discard_pile@ == old(context).discard_pile@,
                context.round == old(context).round,
                context.finisher_idx == old(context).finisher_idx,
                context.winner_idx == old(context).winner_idx,
                forall|p: int|
                    0 <= p < i ==> #[trigger] player_dealt_upto(
                        players0[p],
                        context.players@[p],
                        deck0,
                        p,
                        12,
                    ),
                forall|p: int| i < p < n ==> #[trigger] context.players@[p] == players0[p],
                player_dealt_upto(
                    players0[i as int],
                    context.players@[i as int],
                    deck0,
                    i as int,
                    4 * row,
                ),
            decreases 3 - row,
        {
            let mut column: usize = 0;
            while column < 4
                invariant
                    column <= 4,
                    row < 3,
                    i < n,
                    context.players@.len() == n,
                    12 * i + 4 * row + column <= deck0.len(),
                    context.deck@ == deck0.take(deck0.len() - (12 * i + 4 * row + column)),
                    context.current_player_idx == old(context).current_player_idx,
                    context.discard_pile@ == old(context).discard_pile@,
                    context.round == old(context).round,
                    context.finisher_idx == old(context).finisher_idx,
                    context.winner_idx == old(context).winner_idx,
                    forall|p: int|
                        0 <= p < i ==> #[trigger] player_dealt_upto(
                            players0[p],
                            context.players@[p],
                            deck0,
                            p,
                            12,
                        ),
                    forall|p: int| i < p < n ==> #[trigger] context.players@[p] == players0[p],
                    player_dealt_upto(
                        players0[i as int],
                        context.players@[i as int],
                        deck0,
                        i as int,
                        4 * row + column,
                    ),
                decreases 4 - column,
            {
                let ghost pre = *context;
                let card = match context.deck.draw() {
                    Some(card) => card,
                    None => {
                        proof {
                            assert(deck0.len() == 12 * i + 4 * row + column);
                            assert(deck0.len() < 12 * n);
                            lemma_ids_kept(players0, context.players@, deck0, i as int,
                                4 * row + column);
                        }
                        return Err(GameStartupError::DeckEmpty);
                    },
                };
                proof {
                    assert(card == deck0[deck0.len() - 1 - (12 * i + 4 * row + column)]);
                    assert(pre.deck@.drop_last() =~= deck0.take(
                        deck0.len() - (12 * i + 4 * row + column + 1),
                    ));
                }
                let ghost mid = *context;
                match context.players[i].spread.place_at(card, row, column) {
                    Ok(()) => (),
                    Err(error) => {
                        proof {
                            assert(context.players@ =~= mid.players@);
                            assert(mid.players@[i as int].spread.grid()[row as int][column as int]
                                is Some);
                            assert(players0[i as int].spread.grid()[row as int][column as int]
                                is Some);
                            assert(!spreads_empty(players0));
                            lemma_ids_kept(players0, context.players@, deck0, i as int,
                                4 * row + column);
                        }
                        return Err(GameStartupError::PlayerSpreadError(error));
                    },
                }
                proof {
                    let upd = context.players@[i as int];
                    let prev = mid.players@[i as int];
                    assert(upd.id == prev.id);
                    assert(upd.holding == prev.holding);
                    assert(upd.spread.grid() == prev.spread.grid().update(
                        row as int,
                        prev.spread.grid()[row as int].update(column as int, Some(card)),
                    ));
                    assert forall|r: int, c: int|
                        0 <= r < 3 && 0 <= c < 4 implies #[trigger] upd.spread.grid()[r][c] == (
                    if r == row && c == column {
                        Some(card)
                    } else {
                        prev.spread.grid()[r][c]
                    }) by {
                        if r == row {
                            assert(upd.spread.grid()[r] == prev.spread.grid()[
                                row as int].update(column as int, Some(card)));
                        } else {
                            assert(upd.spread.grid()[r] == prev.spread.grid()[r]);
                        }
                    }
                    assert(player_dealt_upto(
                        players0[i as int],
                        upd,
                        deck0,
                        i as int,
                        4 * row + column + 1,
                    ));
                }
                column += 1;
            }
            row += 1;
        }
        proof {
            assert(player_dealt_upto(
                players0[i as int],
                context.players@[i as int],
                deck0,
                i as int,
                12,
            ));
        }
        i += 1;
    }
    proof {
        lemma_ids_kept(players0, context.players@, deck0, players0.len() as int, 0);
        assert forall|p: int, r: int, c: int|
            0 <= p < players0.len() && 0 <= r < 3 && 0 <= c < 4 implies (
        #[trigger] players0[p].spread.grid()[r][c]) is None by {
            assert(player_dealt_upto(players0[p], context.players@[p], deck0, p, 12));
            assert(4 * r + c < 12);
            assert(context.players@[p].spread.grid()[r][c] == Some(
                deck0[deck0.len() - 1 - (12 * p + 4 * r + c)],
            ));
        }
    }
    Ok(())
}

/// Identities and held cards survive a deal that has reached player `i`,
/// cell `upto`, whether or not it then stopped short.
proof fn lemma_ids_kept(
    players0: Seq<Player>,
    players1: Seq<Player>,
    deck0: Seq<Card>,
    i: int,
    upto: int,
)
    requires
        players1.len() == players0.len(),
        forall|p: int|
            0 <= p < i ==> #[trigger] player_dealt_upto(players0[p], players1[p], deck0, p, 12),
        forall|p: int| i < p < players0.len() ==> #[trigger] players1[p] == players0[p],
        0 <= i < players0.len() ==> player_dealt_upto(players0[i], players1[i], deck0, i, upto),
    ensures
        forall|p: int|
            0 <= p < players0.len() ==> (#[trigger] players1[p]).id == players0[p].id
                && players1[p].holding == players0[p].holding,
{
    assert forall|p: int|
        0 <= p < players0.len() implies (#[trigger] players1[p]).id == players0[p].id
        && players1[p].holding == players0[p].holding by {
        if p < i {
            assert(player_dealt_upto(players0[p], players1[p], deck0, p, 12));
        } else if p > i {
            assert(players1[p] == players0[p]);
        }
    }
}

/// Shuffle, prime the discard pile with the deck's top card, deal every
/// player their spread, and pick the next state from the options. The prior
/// state is not consulted: starting overwrites it.
pub fn handle_start(context: GameContext, _state: GameState, options: GameOptions) -> (result:
    ActionResult)
    ensures
        started_outcome(context, options, result),
{
    let ghost before = context;
    let mut context = context;
    context.deck.shuffle();
    let ghost shuffled_deck = context.deck@;
    let top_card = match context.deck.draw() {
        Some(card) => card,
        None => {
            return Err(GameStartupError::DeckEmpty);
        },
    };
    context.discard_pile.put(top_card);
    let ghost mixed = context.deck@.push(top_card);
    proof {
        assert(mixed =~= shuffled_deck);
        assert(mixed.drop_last() =~= context.deck@);
        assert(mixed.last() == top_card);
    }
    match deal_cards_to_players(&mut context) {
        Ok(()) => (),
        Err(error) => {
            return Err(error);
        },
    }
    proof {
        assert(context.deck@ =~= mixed.take(
            mixed.len() - 1 - 12 * before.players@.len(),
        ));
    }
    let state: GameState = if let Some(first_player_idx) = options.first_player_idx {
        context.current_player_idx = Some(first_player_idx);
        GameState::Active
    } else {
        GameState::DetermineFirstPlayer
    };
    proof {
        lemma_started_from_witness(before, context, options, mixed);
    }
    Ok((Some(state), Some(context)))
}

/// Whether `after` is a freshly started position grown out of `before`: some
/// reordering of the deck was cut for the discard pile and the deals, and the
/// choice of first player followed the options.
pub open spec fn started_from(
    before: GameContext,
    after: GameContext,
    options: GameOptions,
) -> bool {
    exists|mixed: Seq<Card>|
        {
            &&& mixed.to_multiset() == before.deck@.to_multiset()
            &&& mixed.len() == before.deck@.len()
            &&& after.deck@ == mixed.take(mixed.len() - 1 - 12 * before.players@.len())
            &&& after.discard_pile@ == before.discard_pile@.push(mixed.last())
            &&& #[trigger] dealt_exactly(before.players@, after.players@, mixed.drop_last())
            &&& after.round == before.round
            &&& after.finisher_idx == before.finisher_idx
            &&& after.winner_idx == before.winner_idx
            &&& after.current_player_idx == if options.first_player_idx is Some {
                options.first_player_idx
            } else {
                before.current_player_idx
            }
        }
}

/// What starting a position hands back, case by case.
pub open spec fn started_outcome(
    before: GameContext,
    options: GameOptions,
    result: ActionResult,
) -> bool {
    let deck_len = before.deck@.len();
    let needed = 1 + 12 * before.players@.len();
    &&& deck_len == 0 ==> result == Err::<(Option<GameState>, Option<GameContext>),
        GameStartupError,
    >(GameStartupError::DeckEmpty)
    &&& deck_len > 0 && spreads_empty(before.players@) && deck_len < needed ==> result == Err::<
        (Option<GameState>, Option<GameContext>),
        GameStartupError,
    >(GameStartupError::DeckEmpty)
    &&& deck_len >= needed && !spreads_empty(before.players@) ==> result == Err::<
        (Option<GameState>, Option<GameContext>),
        GameStartupError,
    >(GameStartupError::PlayerSpreadError(crate::card::SpreadActionError::SpotTaken))
    &&& deck_len >= needed && spreads_empty(before.players@) ==> ({
        &&& result matches Ok(pair)
        &&& pair.0 == Some(
            if options.first_player_idx is Some {
                GameState::Active
            } else {
                GameState::DetermineFirstPlayer
            },
        )
        &&& pair.1 matches Some(after) && started_from(before, after, options)
    })
}

/// A started position is on record once a witness for the reordered deck is
/// in hand.
pub(crate) proof fn lemma_started_from_witness(
    before: GameContext,
    after: GameContext,
    options: GameOptions,
    mixed: Seq<Card>,
)
    requires
        mixed.to_multiset() == before.deck@.to_multiset(),
        mixed.len() == before.deck@.len(),
        after.deck@ == mixed.take(mixed.len() - 1 - 12 * before.players@.len()),
        after.discard_pile@ == before.discard_pile@.push(mixed.last()),
        dealt_exactly(before.players@, after.players@, mixed.drop_last()),
        after.round == before.round,
        after.finisher_idx == before.finisher_idx,
        after.winner_idx == before.winner_idx,
        after.current_player_idx == if options.first_player_idx is Some {
            options.first_player_idx
        } else {
            before.current_player_idx
        },
    ensures
        started_from(before, after, options),
{
}

} // verus!
