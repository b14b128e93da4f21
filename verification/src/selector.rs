//! Selectors: read a value of interest out of a game context.

use crate::game::{GameContext, is_first_match, no_player_has_id};
use crate::player::Player;
use vstd::prelude::*;

verus! {

/// The first player carrying the given identifier, taken out of the context.
pub fn get_player(context: GameContext, player_id: &str) -> (result: Option<Player>)
    ensures
        result is None <==> no_player_has_id(context.players@, player_id@),
        result matches Some(player) ==> exists|i: int|
            #[trigger] is_first_match(context.players@, player_id@, i) && player
                == context.players@[i],
{
    let ghost players0 = context.players@;
    let want: String = player_id.to_owned();
    let mut players = context.players;
    let mut i: usize = 0;
    while i < players.len()
        invariant
            i <= players@.len(),
            players@ == players0,
            forall|j: int| 0 <= j < i ==> #[trigger] players0[j].id@ != player_id@,
        decreases players@.len() - i,
    {
        if players[i].id == want {
            proof {
                assert(is_first_match(context.players@, player_id@, i as int));
            }
            return Some(players.remove(i));
        }
        i += 1;
    }
    None
}

} // verus!
