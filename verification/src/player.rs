//! Players: an identity, the card held mid-turn, and the player's spread.

use crate::card::{Card, CardValue, PlayerSpread, cell_card};
use rand::Rng;
use vstd::prelude::*;

verus! {

/// What can go wrong when a player handles a card.
#[derive(Debug, PartialEq, Copy, Clone)]
pub enum PlayerActionError {
    /// The player already holds the carried card.
    AlreadyHoldingCard(Card),
}

/// A participant in a game: a generated identifier, the card held between the
/// start and the end of a turn, and the spread of cards in front of them.
#[derive(Debug, PartialEq)]
pub struct Player {
    /// A generated identifier.
    pub id: String,
    /// The card in hand after drawing from the deck or taking from the
    /// discard pile; held only mid-turn.
    pub holding: Option<Card>,
    /// The grid of cards in front of the player. Starts as 3x4 and may lose
    /// columns as they match.
    pub spread: PlayerSpread,
}

impl Clone for Player {
    /// An exact copy of the player.
    fn clone(&self) -> (result: Self)
        ensures
            result == *self,
    {
        Player { id: self.id.clone(), holding: self.holding, spread: self.spread }
    }
}

impl Player {
    /// A fresh player with the given identifier, empty-handed, with an empty
    /// spread.
    pub fn new(id: &str) -> (result: Player)
        ensures
            result.id@ == id@,
            result.holding is None,
            forall|r: int, c: int| 0 <= r < 3 && 0 <= c < 4 ==> result.spread.grid()[r][c] is None,
    {
        Player { id: id.to_owned(), holding: None, spread: PlayerSpread::new() }
    }

    /// The player's identifier.
    pub fn id(&self) -> (result: String)
        ensures
            result@ == self.id@,
    {
        self.id.clone()
    }

    /// The card the player is holding, if any.
    pub fn holding(&self) -> (result: Option<Card>)
        ensures
            result == self.holding,
    {
        self.holding
    }

    /// The player's spread, as it stands.
    pub fn view_spread(&self) -> (result: PlayerSpread)
        ensures
            result == self.spread,
    {
        self.spread
    }

    /// Take a card in hand for the rest of the turn; the card turns face up.
    /// A player holds at most one card at a time.
    pub fn hold(&mut self, card: Card) -> (result: Result<(), PlayerActionError>)
        ensures
            old(self).holding is Some ==> result == Err::<(), PlayerActionError>(
                PlayerActionError::AlreadyHoldingCard(cell_card(old(self).holding)),
            ) && *final(self) == *old(self),
            old(self).holding is None ==> result == Ok::<(), PlayerActionError>(()) && *final(self)
                == (Player {
                holding: Some(Card { value: card.value, flipped: true }),
                ..*old(self)
            }),
    {
        match self.holding {
            Some(card_in_hand) => Err(PlayerActionError::AlreadyHoldingCard(card_in_hand)),
            None => {
                let mut card = card;
                card.flip();
                self.holding = Some(card);
                Ok(())
            },
        }
    }

    /// Give up the held card, if any; the hand is empty afterwards.
    pub fn release(&mut self) -> (result: Option<Card>)
        ensures
            result == old(self).holding,
            *final(self) == (Player { holding: None, ..*old(self) }),
    {
        self.holding.take()
    }
}

/// How the player chooses to start their turn.
#[derive(Debug, PartialEq, Eq, Structural, Copy, Clone)]
pub enum StartAction {
    DrawFromDeck,
    TakeFromDiscardPile,
}

/// How the player chooses to end their turn.
#[derive(Debug, PartialEq, Eq, Structural, Copy, Clone)]
pub enum EndAction {
    /// Swap the held card with the card in a cell; row and column are 0-based.
    Swap { row: usize, column: usize },
    /// Flip the card in a cell face up and discard the held card; row and
    /// column are 0-based.
    Flip { row: usize, column: usize },
}

/// A player about to start a turn, paired with the chosen opening action.
#[derive(Debug, PartialEq)]
pub struct PlayerTurnStart<'a> {
    pub player: &'a Player,
    pub action: StartAction,
}

/// A player about to end a turn, paired with the chosen closing action.
#[derive(Debug, PartialEq)]
pub struct PlayerTurnEnd<'a> {
    pub player: &'a Player,
    pub action: EndAction,
}

/// Relies on rand's `Alphanumeric` distribution: an identifier of exactly 30
/// random alphanumeric characters.
#[verifier::external_body]
pub fn generate_player_id() -> (result: String)
    ensures
        result@.len() == 30,
{
    rand::thread_rng().sample_iter(&rand::distributions::Alphanumeric).take(30).map(
        char::from,
    ).collect::<String>()
}

} // verus!
