//! The card-domain model: card values, cards, the deck, the discard pile and
//! each player's 3x4 spread.

use rand::Rng;
use vstd::prelude::*;

verus! {

broadcast use {vstd::seq_lib::group_to_multiset_ensures, vstd::multiset::group_multiset_axioms};

use vstd::arithmetic::div_mod::lemma_fundamental_div_mod;
use vstd::multiset::Multiset;
use vstd::seq_lib::lemma_multiset_commutative;

/// The face value of a card: one of the integers -2 through 12.
#[derive(Debug, PartialEq, Eq, Structural, Copy, Clone)]
pub enum CardValue {
    NegativeTwo,
    NegativeOne,
    Zero,
    One,
    Two,
    Three,
    Four,
    Five,
    Six,
    Seven,
    Eight,
    Nine,
    Ten,
    Eleven,
    Twelve,
}

impl CardValue {
    /// The integer a card value stands for.
    pub open spec fn as_int(self) -> int {
        match self {
            CardValue::NegativeTwo => -2,
            CardValue::NegativeOne => -1,
            CardValue::Zero => 0,
            CardValue::One => 1,
            CardValue::Two => 2,
            CardValue::Three => 3,
            CardValue::Four => 4,
            CardValue::Five => 5,
            CardValue::Six => 6,
            CardValue::Seven => 7,
            CardValue::Eight => 8,
            CardValue::Nine => 9,
            CardValue::Ten => 10,
            CardValue::Eleven => 11,
            CardValue::Twelve => 12,
        }
    }

    /// The card value standing for an integer in -2..=12.
    pub open spec fn spec_from_int(value: int) -> CardValue
        recommends
            -2 <= value <= 12,
    {
        if value == -2 {
            CardValue::NegativeTwo
        } else if value == -1 {
            CardValue::NegativeOne
        } else if value == 0 {
            CardValue::Zero
        } else if value == 1 {
            CardValue::One
        } else if value == 2 {
            CardValue::Two
        } else if value == 3 {
            CardValue::Three
        } else if value == 4 {
            CardValue::Four
        } else if value == 5 {
            CardValue::Five
        } else if value == 6 {
            CardValue::Six
        } else if value == 7 {
            CardValue::Seven
        } else if value == 8 {
            CardValue::Eight
        } else if value == 9 {
            CardValue::Nine
        } else if value == 10 {
            CardValue::Ten
        } else if value == 11 {
            CardValue::Eleven
        } else {
            CardValue::Twelve
        }
    }

    /// Build a card value from an integer; only -2..=12 name a card.
    pub fn from_i32(value: i32) -> (result: CardValue)
        requires
            -2 <= value <= 12,
        ensures
            result == CardValue::spec_from_int(value as int),
            result.as_int() == value as int,
    {
        match value {
            -2 => CardValue::NegativeTwo,
            -1 => CardValue::NegativeOne,
            0 => CardValue::Zero,
            1 => CardValue::One,
            2 => CardValue::Two,
            3 => CardValue::Three,
            4 => CardValue::Four,
            5 => CardValue::Five,
            6 => CardValue::Six,
            7 => CardValue::Seven,
            8 => CardValue::Eight,
            9 => CardValue::Nine,
            10 => CardValue::Ten,
            11 => CardValue::Eleven,
            _ => CardValue::Twelve,
        }
    }

    /// The integer a card value stands for, as an `i32`.
    pub fn to_i32(self) -> (result: i32)
        ensures
            result as int == self.as_int(),
    {
        match self {
            CardValue::NegativeTwo => -2,
            CardValue::NegativeOne => -1,
            CardValue::Zero => 0,
            CardValue::One => 1,
            CardValue::Two => 2,
            CardValue::Three => 3,
            CardValue::Four => 4,
            CardValue::Five => 5,
            CardValue::Six => 6,
            CardValue::Seven => 7,
            CardValue::Eight => 8,
            CardValue::Nine => 9,
            CardValue::Ten => 10,
            CardValue::Eleven => 11,
            CardValue::Twelve => 12,
        }
    }
}

/// Every card value stands for an integer in -2..=12.
pub proof fn lemma_card_value_range(value: CardValue)
    ensures
        -2 <= value.as_int() <= 12,
{
}

/// A card: a face value together with a face-up flag. A card starts face down
/// and is flipped face up at most once.
#[derive(Debug, PartialEq, Eq, Structural, Copy, Clone)]
pub struct Card {
    pub value: CardValue,
    pub flipped: bool,
}

impl Card {
    /// A face-down card with the given value; only -2..=12 name a card.
    pub fn new(value: i32) -> (result: Card)
        requires
            -2 <= value <= 12,
        ensures
            result == (Card { value: CardValue::spec_from_int(value as int), flipped: false }),
    {
        Card { value: CardValue::from_i32(value), flipped: false }
    }

    /// The card's value, visible only once the card is face up.
    pub fn get_value(&self) -> (result: Option<CardValue>)
        ensures
            result == if self.flipped {
                Some(self.value)
            } else {
                None::<CardValue>
            },
    {
        if self.is_flipped() {
            Some(self.value)
        } else {
            None
        }
    }

    /// Turn the card face up.
    pub fn flip(&mut self)
        ensures
            *final(self) == (Card { value: old(self).value, flipped: true }),
    {
        self.flipped = true;
    }

    /// Whether the card is face up.
    pub fn is_flipped(&self) -> (result: bool)
        ensures
            result == self.flipped,
    {
        self.flipped
    }

    /// Whether the card is face up.
    pub fn is_visible(&self) -> (result: bool)
        ensures
            result == self.flipped,
    {
        self.flipped
    }
}

/// One ascending run of the fifteen card values, -2 through 12, all face down.
pub open spec fn one_run() -> Seq<Card> {
    Seq::new(15, |k: int| Card { value: CardValue::spec_from_int(k - 2), flipped: false })
}

/// `n` ascending runs laid end to end.
pub open spec fn runs(n: int) -> Seq<Card>
    decreases n,
{
    if n <= 0 {
        Seq::<Card>::empty()
    } else {
        runs(n - 1) + one_run()
    }
}

/// The canonical 150-card deck in its deterministic construction order:
/// ten ascending runs of -2 through 12.
pub open spec fn full_deck() -> Seq<Card> {
    runs(10)
}

/// How many cards of a given face value a stack holds.
pub open spec fn count_value(cards: Seq<Card>, value: int) -> int
    decreases cards.len(),
{
    if cards.len() == 0 {
        0
    } else {
        count_value(cards.drop_last(), value) + if cards.last().value.as_int() == value {
            1int
        } else {
            0int
        }
    }
}

proof fn lemma_count_value_distributes(a: Seq<Card>, b: Seq<Card>, value: int)
    ensures
        count_value(a + b, value) == count_value(a, value) + count_value(b, value),
    decreases b.len(),
{
    if b.len() == 0 {
        assert(a + b =~= a);
    } else {
        assert((a + b).drop_last() =~= a + b.drop_last());
        assert((a + b).last() == b.last());
        lemma_count_value_distributes(a, b.drop_last(), value);
    }
}

proof fn lemma_count_one_run_prefix(value: int, k: int)
    requires
        -2 <= value <= 12,
        0 <= k <= 15,
    ensures
        count_value(one_run().take(k), value) == if value + 2 < k {
            1int
        } else {
            0int
        },
    decreases k,
{
    if k > 0 {
        lemma_count_one_run_prefix(value, k - 1);
        assert(one_run().take(k).drop_last() =~= one_run().take(k - 1));
        assert(one_run().take(k).last() == one_run()[k - 1]);
    }
}

proof fn lemma_count_runs(n: int, value: int)
    requires
        -2 <= value <= 12,
        n >= 0,
    ensures
        count_value(runs(n), value) == n,
    decreases n,
{
    if n == 0 {
        assert(count_value(runs(0), value) == 0);
    } else {
        lemma_count_runs(n - 1, value);
        lemma_count_value_distributes(runs(n - 1), one_run(), value);
        lemma_count_one_run_prefix(value, 15);
        assert(one_run().take(15) =~= one_run());
    }
}

proof fn lemma_runs_len(n: int)
    requires
        n >= 0,
    ensures
        runs(n).len() == 15 * n,
    decreases n,
{
    if n > 0 {
        lemma_runs_len(n - 1);
    }
}

/// The canonical deck holds exactly 150 cards: 10 of each value -2 through 12.
pub proof fn lemma_full_deck_composition()
    ensures
        full_deck().len() == 150,
        forall|value: int| -2 <= value <= 12 ==> #[trigger] count_value(full_deck(), value) == 10,
{
    lemma_runs_len(10);
    assert forall|value: int| -2 <= value <= 12 implies #[trigger] count_value(
        full_deck(),
        value,
    ) == 10 by {
        lemma_count_runs(10, value);
    }
}

/// Whether every card in a stack is face down.
pub open spec fn all_face_down(cards: Seq<Card>) -> bool {
    forall|i: int| 0 <= i < cards.len() ==> !(#[trigger] cards[i]).flipped
}

/// The canonical deck is dealt entirely face down.
pub proof fn lemma_full_deck_face_down()
    ensures
        all_face_down(full_deck()),
{
    lemma_runs_face_down(10);
}

proof fn lemma_runs_face_down(n: int)
    ensures
        all_face_down(runs(n)),
    decreases n,
{
    if n > 0 {
        lemma_runs_face_down(n - 1);
        assert forall|i: int| 0 <= i < runs(n).len() implies !(#[trigger] runs(n)[i]).flipped by {
            if i < runs(n - 1).len() {
                assert(runs(n)[i] == runs(n - 1)[i]);
            } else {
                assert(runs(n)[i] == one_run()[i - runs(n - 1).len()]);
            }
        }
    }
}

/// A reshuffled stack of face-down cards is still face down everywhere.
pub proof fn lemma_multiset_face_down(a: Seq<Card>, b: Seq<Card>)
    requires
        a.to_multiset() == b.to_multiset(),
        all_face_down(a),
    ensures
        all_face_down(b),
{
    assert forall|i: int| 0 <= i < b.len() implies !(#[trigger] b[i]).flipped by {
        assert(b.to_multiset().count(b[i]) > 0);
        assert(a.contains(b[i]));
    }
}

/// Relies on rand's `Rng::gen_range`: a uniformly random value in
/// `low..high`; the range must not be empty.
#[verifier::external_body]
fn rand_in_range(low: usize, high: usize) -> (result: usize)
    requires
        low < high,
    ensures
        low <= result < high,
{
    rand::thread_rng().gen_range(low..high)
}

/// Relies on rand's `Standard` distribution for `bool`: a fair coin flip.
/// Nothing can be promised of the outcome.
#[verifier::external_body]
fn random_bool() -> bool {
    rand::random::<bool>()
}

/// An element-for-element copy of a stack of cards.
fn copy_cards(cards: &Vec<Card>) -> (result: Vec<Card>)
    ensures
        result@ == cards@,
{
    let mut result: Vec<Card> = Vec::new();
    let mut i: usize = 0;
    while i < cards.len()
        invariant
            i <= cards@.len(),
            result@ == cards@.take(i as int),
        decreases cards@.len() - i,
    {
        result.push(cards[i]);
        proof {
            assert(cards@.take(i + 1) =~= cards@.take(i as int).push(cards@[i as int]));
        }
        i += 1;
    }
    proof {
        assert(cards@.take(cards@.len() as int) =~= cards@);
    }
    result
}

/// Swapping two positions of a stack keeps the same multiset of cards.
proof fn lemma_swap_preserves_multiset(s: Seq<Card>, i: int, j: int)
    requires
        0 <= i < s.len(),
        0 <= j < s.len(),
    ensures
        s.update(i, s[j]).update(j, s[i]).to_multiset() == s.to_multiset(),
{
    if i == j {
        assert(s.update(i, s[j]).update(j, s[i]) =~= s);
    } else {
        let s1 = s.update(i, s[j]);
        assert(s1 =~= s.remove(i).insert(i, s[j]));
        assert(s.remove(i).insert(i, s[j]).to_multiset() == s.to_multiset().remove(s[i]).insert(
            s[j],
        ));
        let s2 = s1.update(j, s[i]);
        assert(s2 =~= s1.remove(j).insert(j, s[i]));
        assert(s1.remove(j).insert(j, s[i]).to_multiset() == s1.to_multiset().remove(
            s1[j],
        ).insert(s[i]));
        assert(s1[j] == s[j]);
        assert(s.to_multiset().remove(s[i]).insert(s[j]).remove(s[j]).insert(s[i])
            =~= s.to_multiset());
    }
}

/// A sequence with no elements holds the empty multiset.
proof fn lemma_empty_to_multiset(s: Seq<Card>)
    requires
        s.len() == 0,
    ensures
        s.to_multiset() == Multiset::<Card>::empty(),
{
    assert forall|c: Card| s.to_multiset().count(c) == 0 by {
        if s.to_multiset().count(c) > 0 {
            assert(s.contains(c));
        }
    }
    assert(s.to_multiset() =~= Multiset::<Card>::empty());
}

/// The shared draw deck: an ordered stack of cards, drawn from the end.
#[derive(Debug, PartialEq)]
pub struct Deck(Vec<Card>);

impl Clone for Deck {
    /// A copy holding the same cards in the same order.
    fn clone(&self) -> (result: Self)
        ensures
            result@ == self@,
    {
        Deck(copy_cards(&self.0))
    }
}

impl View for Deck {
    type V = Seq<Card>;

    closed spec fn view(&self) -> Seq<Card> {
        self.0@
    }
}

impl Deck {
    /// The size of a deck with nothing left to draw.
    pub const EMPTY_SIZE: usize = 0;

    /// The size of a freshly built deck.
    pub const FULL_SIZE: usize = 150;

    /// Create the canonical deck: ten runs of -2 through 12, face down, in
    /// deterministic construction order.
    pub fn new() -> (result: Deck)
        ensures
            result@ == full_deck(),
    {
        let mut cards: Vec<Card> = Vec::new();
        let mut set: usize = 0;
        while set < 10
            invariant
                set <= 10,
                cards@ == runs(set as int),
            decreases 10 - set,
        {
            let mut value: i32 = -2;
            while value <= 12
                invariant
                    -2 <= value <= 13,
                    cards@ == runs(set as int) + one_run().take(value + 2),
                decreases 13 - value,
            {
                cards.push(Card::new(value));
                proof {
                    assert(one_run().take(value + 3) =~= one_run().take(value + 2).push(
                        one_run()[value + 2],
                    ));
                    assert(runs(set as int) + one_run().take(value + 3) =~= (runs(set as int)
                        + one_run().take(value + 2)).push(one_run()[value + 2]));
                }
                value = value + 1;
            }
            proof {
                assert(one_run().take(15) =~= one_run());
            }
            set += 1;
        }
        Deck(cards)
    }

    /// How many cards are left in the deck.
    pub fn size(&self) -> (result: usize)
        ensures
            result == self@.len(),
    {
        self.0.len()
    }

    /// Mimic a human shuffle: split the stack near the middle, interleave
    /// small pinches from both halves, repeat a loose number of times, then
    /// make a few random swaps. The deck keeps exactly the cards it had, with
    /// only their order left to chance; a deck of any size, however small,
    /// is tolerated.
    #[verifier::rlimit(60)]
    pub fn shuffle(&mut self)
        ensures
            final(self)@.to_multiset() == old(self)@.to_multiset(),
            final(self)@.len() == old(self)@.len(),
    {
        let times_to_shuffle: usize = rand_in_range(4, 8);
        let middle: usize = self.0.len() / 2;
        let max_variance_from_middle: usize = self.0.len() / 10;

        let mut left_hand = copy_cards(&self.0);

        let mut round: usize = 0;
        while round < times_to_shuffle
            invariant
                middle == self.0@.len() / 2,
                max_variance_from_middle == self.0@.len() / 10,
                left_hand@.to_multiset() == self.0@.to_multiset(),
            decreases times_to_shuffle - round,
        {
            let variance_from_middle: usize = if max_variance_from_middle > 0 {
                rand_in_range(0, max_variance_from_middle)
            } else {
                0
            };
            proof {
                lemma_fundamental_div_mod(self.0@.len() as int, 2);
                lemma_fundamental_div_mod(self.0@.len() as int, 10);
                assert(left_hand@.len() == left_hand@.to_multiset().len());
                assert(self.0@.len() == self.0@.to_multiset().len());
                assert(self.0.len() == self.0@.len());
                assert(2 * middle <= self.0@.len());
                assert(10 * max_variance_from_middle <= self.0@.len());
                assert(middle + variance_from_middle <= self.0@.len());
                assert(variance_from_middle <= middle);
            }
            let guess_at_middle: usize = if random_bool() {
                middle + variance_from_middle
            } else {
                middle - variance_from_middle
            };

            let ghost whole = left_hand@;
            let mut right_hand = left_hand.split_off(guess_at_middle);
            let mut shuffled: Vec<Card> = Vec::new();
            let ghost target = self.0@.to_multiset();
            proof {
                assert(whole =~= left_hand@ + right_hand@);
                lemma_multiset_commutative(left_hand@, right_hand@);
                lemma_empty_to_multiset(shuffled@);
                assert(shuffled@.to_multiset().add(left_hand@.to_multiset()).add(
                    right_hand@.to_multiset(),
                ) =~= target);
            }

            while !(left_hand.len() == 0 && right_hand.len() == 0)
                invariant
                    shuffled@.to_multiset().add(left_hand@.to_multiset()).add(
                        right_hand@.to_multiset(),
                    ) == target,
                decreases left_hand@.len() + right_hand@.len(),
            {
                let ghost entry_left: int = left_hand@.len() as int;
                let ghost entry_right: int = right_hand@.len() as int;

                let left_cards_to_take: usize = rand_in_range(1, 4);
                let mut k: usize = 0;
                while k < left_cards_to_take
                    invariant
                        shuffled@.to_multiset().add(left_hand@.to_multiset()).add(
                            right_hand@.to_multiset(),
                        ) == target,
                        right_hand@.len() == entry_right,
                        left_hand@.len() == if entry_left - k >= 0 {
                            entry_left - k
                        } else {
                            0
                        },
                    decreases left_cards_to_take - k,
                {
                    let ghost pre = left_hand@;
                    if let Some(card) = left_hand.pop() {
                        shuffled.push(card);
                        proof {
                            assert(pre.remove(pre.len() - 1) =~= pre.drop_last());
                        }
                    }
                    k += 1;
                }

                let right_cards_to_take: usize = rand_in_range(1, 4);
                let ghost mid_left: int = left_hand@.len() as int;
                let mut k: usize = 0;
                while k < right_cards_to_take
                    invariant
                        shuffled@.to_multiset().add(left_hand@.to_multiset()).add(
                            right_hand@.to_multiset(),
                        ) == target,
                        left_hand@.len() == mid_left,
                        right_hand@.len() == if entry_right - k >= 0 {
                            entry_right - k
                        } else {
                            0
                        },
                    decreases right_cards_to_take - k,
                {
                    let ghost pre = right_hand@;
                    if let Some(card) = right_hand.pop() {
                        shuffled.push(card);
                        proof {
                            assert(pre.remove(pre.len() - 1) =~= pre.drop_last());
                        }
                    }
                    k += 1;
                }
            }

            proof {
                lemma_empty_to_multiset(left_hand@);
                lemma_empty_to_multiset(right_hand@);
                assert(shuffled@.to_multiset().add(left_hand@.to_multiset()).add(
                    right_hand@.to_multiset(),
                ) =~= shuffled@.to_multiset());
            }
            left_hand = shuffled;
            round += 1;
        }

        let number_of_swaps: usize = rand_in_range(4, 12);
        let mut swap: usize = 0;
        while swap < number_of_swaps
            invariant
                left_hand@.to_multiset() == self.0@.to_multiset(),
            decreases number_of_swaps - swap,
        {
            if left_hand.len() > 0 {
                let first: usize = rand_in_range(0, left_hand.len());
                let second: usize = rand_in_range(0, left_hand.len());
                let ghost pre = left_hand@;
                let card_a: Card = left_hand[first];
                let card_b: Card = left_hand[second];
                left_hand[first] = card_b;
                left_hand[second] = card_a;
                proof {
                    lemma_swap_preserves_multiset(pre, first as int, second as int);
                }
            }
            swap += 1;
        }

        proof {
            assert(left_hand@.len() == left_hand@.to_multiset().len());
            assert(self.0@.len() == self.0@.to_multiset().len());
        }
        self.0 = left_hand;
    }

    /// Draw the top (last) card, if any is left.
    pub fn draw(&mut self) -> (result: Option<Card>)
        ensures
            old(self)@.len() == 0 ==> result is None && final(self)@ == old(self)@,
            old(self)@.len() > 0 ==> result == Some(old(self)@.last()) && final(self)@ == old(
                self,
            )@.drop_last(),
    {
        self.0.pop()
    }
}

impl Default for Deck {
    /// The canonical deck, as `Deck::new` builds it.
    fn default() -> (result: Deck)
        ensures
            result@ == full_deck(),
    {
        Deck::new()
    }
}

/// The discard pile: a stack of cards, the most recently discarded on top.
#[derive(Debug, PartialEq)]
pub struct DiscardPile(Vec<Card>);

impl Clone for DiscardPile {
    /// A copy holding the same cards in the same order.
    fn clone(&self) -> (result: Self)
        ensures
            result@ == self@,
    {
        DiscardPile(copy_cards(&self.0))
    }
}

impl View for DiscardPile {
    type V = Seq<Card>;

    closed spec fn view(&self) -> Seq<Card> {
        self.0@
    }
}

impl DiscardPile {
    /// Create a new, empty pile.
    pub fn new() -> (result: DiscardPile)
        ensures
            result@ == Seq::<Card>::empty(),
    {
        DiscardPile(Vec::new())
    }

    /// How many cards the pile holds.
    pub fn size(&self) -> (result: usize)
        ensures
            result == self@.len(),
    {
        self.0.len()
    }

    /// Take the top card from the pile, if any.
    pub fn take(&mut self) -> (result: Option<Card>)
        ensures
            old(self)@.len() == 0 ==> result is None && final(self)@ == old(self)@,
            old(self)@.len() > 0 ==> result == Some(old(self)@.last()) && final(self)@ == old(
                self,
            )@.drop_last(),
    {
        self.0.pop()
    }

    /// Put a card on top of the pile.
    pub fn put(&mut self, card: Card)
        ensures
            final(self)@ == old(self)@.push(card),
    {
        self.0.push(card)
    }
}

/// A spread's grid always has three rows of four cells.
pub broadcast proof fn lemma_grid_dims(spread: PlayerSpread)
    ensures
        (#[trigger] spread.grid()).len() == 3,
        forall|r: int| 0 <= r < 3 ==> (#[trigger] spread.grid()[r]).len() == 4,
{
}

/// What can go wrong when acting on a spread. The row and column errors
/// carry the verb of the attempted action, for messages.
#[derive(Debug, PartialEq, Copy, Clone)]
pub enum SpreadActionError {
    RowDoesntExist(&'static str),
    ColumnDoesntExist(&'static str),
    NoCardFound,
    SpotTaken,
    CardAlreadyFlipped,
}

/// The card a spread cell holds; meaningful only for an occupied cell.
pub open spec fn cell_card(cell: Option<Card>) -> Card
    recommends
        cell is Some,
{
    match cell {
        Some(card) => card,
        None => Card { value: CardValue::Zero, flipped: false },
    }
}

/// Whether a spread cell holds a face-up card.
pub open spec fn cell_is_flipped(cell: Option<Card>) -> bool {
    match cell {
        Some(card) => card.flipped,
        None => false,
    }
}

/// Whether a spread cell is empty or holds a face-up card.
pub open spec fn cell_done(cell: Option<Card>) -> bool {
    match cell {
        Some(card) => card.flipped,
        None => true,
    }
}

/// What a spread cell contributes to the score: the value of a face-up card,
/// nothing otherwise.
pub open spec fn cell_score(cell: Option<Card>) -> int {
    match cell {
        Some(card) => if card.flipped {
            card.value.as_int()
        } else {
            0
        },
        None => 0,
    }
}

/// What a spread cell shows to onlookers: the value of a face-up card only.
pub open spec fn visible_cell(cell: Option<Card>) -> Option<CardValue> {
    match cell {
        Some(card) => if card.flipped {
            Some(card.value)
        } else {
            None
        },
        None => None,
    }
}

/// A spread cell with its card, if any, turned face up.
pub open spec fn flip_cell(cell: Option<Card>) -> Option<Card> {
    match cell {
        Some(card) => Some(Card { value: card.value, flipped: true }),
        None => None,
    }
}

/// The sum a row of cells contributes to the score.
pub open spec fn row_score(row: Seq<Option<Card>>) -> int
    decreases row.len(),
{
    if row.len() == 0 {
        0
    } else {
        row_score(row.drop_last()) + cell_score(row.last())
    }
}

/// How many cells of a row hold a face-up card.
pub open spec fn row_flipped_count(row: Seq<Option<Card>>) -> int
    decreases row.len(),
{
    if row.len() == 0 {
        0
    } else {
        row_flipped_count(row.drop_last()) + if cell_is_flipped(row.last()) {
            1int
        } else {
            0int
        }
    }
}

/// How many cells of a row hold a card at all.
pub open spec fn row_present_count(row: Seq<Option<Card>>) -> int
    decreases row.len(),
{
    if row.len() == 0 {
        0
    } else {
        row_present_count(row.drop_last()) + if row.last() is Some {
            1int
        } else {
            0int
        }
    }
}

/// The cards a row still holds, in column order.
pub open spec fn row_present_cards(row: Seq<Option<Card>>) -> Seq<Card>
    decreases row.len(),
{
    if row.len() == 0 {
        Seq::<Card>::empty()
    } else {
        row_present_cards(row.drop_last()) + match row.last() {
            Some(card) => seq![card],
            None => Seq::<Card>::empty(),
        }
    }
}

/// Whether a column holds three face-up cards of one value, ready to clear.
pub open spec fn column_clears(grid: Seq<Seq<Option<Card>>>, column: int) -> bool {
    &&& grid[0][column] is Some
    &&& grid[1][column] is Some
    &&& grid[2][column] is Some
    &&& cell_is_flipped(grid[0][column])
    &&& cell_is_flipped(grid[1][column])
    &&& cell_is_flipped(grid[2][column])
    &&& cell_card(grid[0][column]) == cell_card(grid[1][column])
    &&& cell_card(grid[1][column]) == cell_card(grid[2][column])
}

/// A player's spread: a fixed grid of three rows by four columns, each cell
/// either empty (cleared by a prior match) or holding one card.
#[derive(Debug, Default, PartialEq, Copy, Clone)]
pub struct PlayerSpread([[Option<Card>; 4]; 3]);

impl PlayerSpread {
    /// The grid as a sequence of three rows of four cells.
    pub closed spec fn grid(self) -> Seq<Seq<Option<Card>>> {
        Seq::new(3, |r: int| self.0@[r]@)
    }

    /// The total of the face-up cards; face-down and empty cells count zero.
    pub open spec fn spec_score(self) -> int {
        row_score(self.grid()[0]) + row_score(self.grid()[1]) + row_score(self.grid()[2])
    }

    /// How many cells hold a face-up card.
    pub open spec fn spec_flipped_count(self) -> int {
        row_flipped_count(self.grid()[0]) + row_flipped_count(self.grid()[1]) + row_flipped_count(self.grid()[2])
    }

    /// Whether every card still in the spread is face up.
    pub open spec fn spec_all_flipped(self) -> bool {
        forall|r: int, c: int| 0 <= r < 3 && 0 <= c < 4 ==> #[trigger] cell_done(self.grid()[r][c])
    }

    /// The cards the spread still holds, in row-major order.
    pub open spec fn spec_remaining(self) -> Seq<Card> {
        row_present_cards(self.grid()[0]) + row_present_cards(self.grid()[1]) + row_present_cards(self.grid()[2])
    }

    /// An empty three-by-four spread.
    pub fn new() -> (result: PlayerSpread)
        ensures
            forall|r: int, c: int| 0 <= r < 3 && 0 <= c < 4 ==> result.grid()[r][c] is None,
    {
        PlayerSpread(
            [
                [None, None, None, None],
                [None, None, None, None],
                [None, None, None, None],
            ],
        )
    }

    /// What the spread shows to onlookers: per cell, the value of a face-up
    /// card only; face-down and empty cells look alike.
    pub fn view(&self) -> (result: Vec<Vec<Option<CardValue>>>)
        ensures
            result@.len() == 3,
            forall|r: int| 0 <= r < 3 ==> #[trigger] result@[r]@.len() == 4,
            forall|r: int, c: int|
                0 <= r < 3 && 0 <= c < 4 ==> #[trigger] result@[r]@[c] == visible_cell(
                    self.grid()[r][c],
                ),
    {
        let mut rows: Vec<Vec<Option<CardValue>>> = Vec::new();
        let mut r: usize = 0;
        while r < 3
            invariant
                r <= 3,
                rows@.len() == r,
                forall|i: int| 0 <= i < r ==> #[trigger] rows@[i]@.len() == 4,
                forall|i: int, c: int|
                    0 <= i < r && 0 <= c < 4 ==> #[trigger] rows@[i]@[c] == visible_cell(
                        self.grid()[i][c],
                    ),
            decreases 3 - r,
        {
            let mut columns: Vec<Option<CardValue>> = Vec::new();
            let mut c: usize = 0;
            while c < 4
                invariant
                    c <= 4,
                    r < 3,
                    columns@.len() == c,
                    forall|j: int|
                        0 <= j < c ==> #[trigger] columns@[j] == visible_cell(self.grid()[r as int][j]),
                decreases 4 - c,
            {
                let cell = self.0[r][c];
                match cell {
                    Some(card) => {
                        if card.is_flipped() {
                            columns.push(Some(card.value));
                        } else {
                            columns.push(None);
                        }
                    },
                    None => {
                        columns.push(None);
                    },
                }
                c += 1;
            }
            rows.push(columns);
            r += 1;
        }
        rows
    }

    /// Take the card out of a cell: the cell must exist and hold one.
    pub fn take_from(&mut self, row: usize, column: usize) -> (result: Result<
        Card,
        SpreadActionError,
    >)
        ensures
            row >= 3 ==> ({
                &&& result matches Err(SpreadActionError::RowDoesntExist(_))
                &&& *final(self) == *old(self)
            }),
            row < 3 && column >= 4 ==> ({
                &&& result matches Err(SpreadActionError::ColumnDoesntExist(_))
                &&& *final(self) == *old(self)
            }),
            row < 3 && column < 4 && old(self).grid()[row as int][column as int] is None ==> result
                == Err::<Card, SpreadActionError>(SpreadActionError::NoCardFound) && *final(self)
                == *old(self),
            row < 3 && column < 4 && old(self).grid()[row as int][column as int] is Some ==> ({
                &&& result == Ok::<Card, SpreadActionError>(
                    cell_card(old(self).grid()[row as int][column as int]),
                )
                &&& final(self).grid() == old(self).grid().update(
                    row as int,
                    old(self).grid()[row as int].update(column as int, None),
                )
            }),
    {
        if row >= 3 {
            return Err(SpreadActionError::RowDoesntExist("take"));
        }
        if column >= 4 {
            return Err(SpreadActionError::ColumnDoesntExist("take"));
        }
        match self.0[row][column] {
            None => Err(SpreadActionError::NoCardFound),
            Some(card) => {
                let mut cells: [Option<Card>; 4] = self.0[row];
                cells[column] = None;
                self.0[row] = cells;
                proof {
                    assert(final(self).grid() =~= old(self).grid().update(
                        row as int,
                        old(self).grid()[row as int].update(column as int, None),
                    ));
                }
                Ok(card)
            },
        }
    }

    /// Put a card into a cell: the cell must exist and be empty.
    pub fn place_at(&mut self, card: Card, row: usize, column: usize) -> (result: Result<
        (),
        SpreadActionError,
    >)
        ensures
            row >= 3 ==> ({
                &&& result matches Err(SpreadActionError::RowDoesntExist(_))
                &&& *final(self) == *old(self)
            }),
            row < 3 && column >= 4 ==> ({
                &&& result matches Err(SpreadActionError::ColumnDoesntExist(_))
                &&& *final(self) == *old(self)
            }),
            row < 3 && column < 4 && old(self).grid()[row as int][column as int] is Some ==> result
                == Err::<(), SpreadActionError>(SpreadActionError::SpotTaken) && *final(self)
                == *old(self),
            row < 3 && column < 4 && old(self).grid()[row as int][column as int] is None ==> result
                == Ok::<(), SpreadActionError>(()) && final(self).grid() == old(self).grid().update(
                row as int,
                old(self).grid()[row as int].update(column as int, Some(card)),
            ),
    {
        if row >= 3 {
            return Err(SpreadActionError::RowDoesntExist("place"));
        }
        if column >= 4 {
            return Err(SpreadActionError::ColumnDoesntExist("place"));
        }
        if self.0[row][column].is_some() {
            return Err(SpreadActionError::SpotTaken);
        }
        let mut cells: [Option<Card>; 4] = self.0[row];
        cells[column] = Some(card);
        self.0[row] = cells;
        proof {
            assert(final(self).grid() =~= old(self).grid().update(
                row as int,
                old(self).grid()[row as int].update(column as int, Some(card)),
            ));
        }
        Ok(())
    }

    /// Turn the card in a cell face up: the cell must exist and hold a
    /// face-down card.
    pub fn flip_at(&mut self, row: usize, column: usize) -> (result: Result<
        (),
        SpreadActionError,
    >)
        ensures
            row >= 3 ==> ({
                &&& result matches Err(SpreadActionError::RowDoesntExist(_))
                &&& *final(self) == *old(self)
            }),
            row < 3 && column >= 4 ==> ({
                &&& result matches Err(SpreadActionError::ColumnDoesntExist(_))
                &&& *final(self) == *old(self)
            }),
            row < 3 && column < 4 && old(self).grid()[row as int][column as int] is None ==> result
                == Err::<(), SpreadActionError>(SpreadActionError::NoCardFound) && *final(self)
                == *old(self),
            row < 3 && column < 4 && old(self).grid()[row as int][column as int] is Some
                && cell_is_flipped(old(self).grid()[row as int][column as int]) ==> result == Err::<
                (),
                SpreadActionError,
            >(SpreadActionError::CardAlreadyFlipped) && *final(self) == *old(self),
            row < 3 && column < 4 && old(self).grid()[row as int][column as int] is Some
                && !cell_is_flipped(old(self).grid()[row as int][column as int]) ==> result == Ok::<
                (),
                SpreadActionError,
            >(()) && final(self).grid() == old(self).grid().update(
                row as int,
                old(self).grid()[row as int].update(
                    column as int,
                    flip_cell(old(self).grid()[row as int][column as int]),
                ),
            ),
    {
        if row >= 3 {
            return Err(SpreadActionError::RowDoesntExist("flip"));
        }
        if column >= 4 {
            return Err(SpreadActionError::ColumnDoesntExist("flip"));
        }
        match self.0[row][column] {
            None => Err(SpreadActionError::NoCardFound),
            Some(card) => {
                if card.is_flipped() {
                    return Err(SpreadActionError::CardAlreadyFlipped);
                }
                let mut cells: [Option<Card>; 4] = self.0[row];
                cells[column] = Some(Card { value: card.value, flipped: true });
                self.0[row] = cells;
                proof {
                    assert(final(self).grid() =~= old(self).grid().update(
                        row as int,
                        old(self).grid()[row as int].update(column as int, flip_cell(Some(card))),
                    ));
                }
                Ok(())
            },
        }
    }

    /// How many columns still hold a card in the top row.
    pub fn active_columns(&self) -> (result: usize)
        ensures
            result == row_present_count(self.grid()[0]),
    {
        let mut count: usize = 0;
        let mut c: usize = 0;
        while c < 4
            invariant
                c <= 4,
                count <= c,
                count == row_present_count(self.grid()[0].take(c as int)),
            decreases 4 - c,
        {
            if self.0[0][c].is_some() {
                count += 1;
            }
            proof {
                assert(self.grid()[0].take(c + 1).drop_last() =~= self.grid()[0].take(c as int));
                assert(self.grid()[0].take(c + 1).last() == self.grid()[0][c as int]);
                lemma_row_present_count_bounds(self.grid()[0].take(c as int));
            }
            c += 1;
        }
        proof {
            assert(self.grid()[0].take(4) =~= self.grid()[0]);
        }
        count
    }

    /// Clear a column when its three cells hold face-up cards of one value;
    /// otherwise leave the spread alone. The column must exist.
    pub fn remove_column_if_matches(&mut self, column: usize) -> (result: Result<
        (),
        SpreadActionError,
    >)
        requires
            column < 4,
        ensures
            result is Ok,
            column_clears(old(self).grid(), column as int) ==> final(self).grid() == Seq::new(
                3,
                |r: int| old(self).grid()[r].update(column as int, None),
            ),
            !column_clears(old(self).grid(), column as int) ==> *final(self) == *old(self),
    {
        let top = self.0[0][column];
        let mid = self.0[1][column];
        let bottom = self.0[2][column];
        if top.is_none() || mid.is_none() || bottom.is_none() {
            return Ok(());
        }
        let top = top.unwrap();
        let mid = mid.unwrap();
        let bottom = bottom.unwrap();
        if !top.is_flipped() || !mid.is_flipped() || !bottom.is_flipped() {
            return Ok(());
        }
        if top == mid && mid == bottom {
            let mut r: usize = 0;
            while r < 3
                invariant
                    r <= 3,
                    forall|i: int|
                        0 <= i < 3 ==> self.grid()[i] == if i < r {
                            old(self).grid()[i].update(column as int, None)
                        } else {
                            old(self).grid()[i]
                        },
                decreases 3 - r,
            {
                let ghost snap = *self;
                let mut cells: [Option<Card>; 4] = self.0[r];
                proof {
                    assert(cells@ == snap.grid()[r as int]);
                }
                cells[column] = None;
                self.0[r] = cells;
                proof {
                    assert forall|i: int| 0 <= i < 3 implies self.grid()[i] == (if i < r + 1 {
                        old(self).grid()[i].update(column as int, None)
                    } else {
                        old(self).grid()[i]
                    }) by {
                        if i == r {
                            assert(self.grid()[i] == cells@);
                            assert(snap.grid()[i] == old(self).grid()[i]);
                        } else {
                            assert(self.grid()[i] == snap.grid()[i]);
                        }
                    }
                }
                r += 1;
            }
            proof {
                assert(final(self).grid() =~= Seq::new(
                    3,
                    |r: int| old(self).grid()[r].update(column as int, None),
                ));
            }
        }
        Ok(())
    }

    /// The cards the spread still holds, in row-major order.
    pub fn remaining_cards(&self) -> (result: Vec<Card>)
        ensures
            result@ == self.spec_remaining(),
    {
        let mut result: Vec<Card> = Vec::new();
        let mut r: usize = 0;
        while r < 3
            invariant
                r <= 3,
                result@ == rows_present_prefix(*self, r as int),
            decreases 3 - r,
        {
            let mut c: usize = 0;
            while c < 4
                invariant
                    c <= 4,
                    r < 3,
                    result@ == rows_present_prefix(*self, r as int) + row_present_cards(
                        self.grid()[r as int].take(c as int),
                    ),
                decreases 4 - c,
            {
                match self.0[r][c] {
                    Some(card) => result.push(card),
                    None => (),
                }
                proof {
                    assert(self.grid()[r as int].take(c + 1).drop_last() =~= self.grid()[r as int].take(
                        c as int,
                    ));
                    assert(self.grid()[r as int].take(c + 1).last() == self.grid()[r as int][c as int]);
                }
                c += 1;
            }
            proof {
                assert(self.grid()[r as int].take(4) =~= self.grid()[r as int]);
            }
            r += 1;
        }
        result
    }

    /// How many cells hold a face-up card.
    pub fn flipped_cards(&self) -> (result: usize)
        ensures
            result == self.spec_flipped_count(),
    {
        let mut count: usize = 0;
        let mut r: usize = 0;
        while r < 3
            invariant
                r <= 3,
                count == rows_flipped_prefix(*self, r as int),
                count <= 4 * r,
            decreases 3 - r,
        {
            let mut c: usize = 0;
            while c < 4
                invariant
                    c <= 4,
                    r < 3,
                    count == rows_flipped_prefix(*self, r as int) + row_flipped_count(
                        self.grid()[r as int].take(c as int),
                    ),
                    count <= 4 * r + c,
                decreases 4 - c,
            {
                match self.0[r][c] {
                    Some(card) => {
                        if card.is_flipped() {
                            count += 1;
                        }
                    },
                    None => (),
                }
                proof {
                    assert(self.grid()[r as int].take(c + 1).drop_last() =~= self.grid()[r as int].take(
                        c as int,
                    ));
                    assert(self.grid()[r as int].take(c + 1).last() == self.grid()[r as int][c as int]);
                }
                c += 1;
            }
            proof {
                assert(self.grid()[r as int].take(4) =~= self.grid()[r as int]);
            }
            r += 1;
        }
        count
    }

    /// Whether every card still in the spread is face up.
    pub fn is_all_flipped(&self) -> (result: bool)
        ensures
            result == self.spec_all_flipped(),
    {
        let mut all: bool = true;
        let mut r: usize = 0;
        while r < 3
            invariant
                r <= 3,
                all == (forall|i: int, j: int|
                    0 <= i < r && 0 <= j < 4 ==> #[trigger] cell_done(self.grid()[i][j])),
            decreases 3 - r,
        {
            let mut c: usize = 0;
            while c < 4
                invariant
                    c <= 4,
                    r < 3,
                    all == ((forall|i: int, j: int|
                        0 <= i < r && 0 <= j < 4 ==> #[trigger] cell_done(self.grid()[i][j])) && (
                    forall|j: int| 0 <= j < c ==> #[trigger] cell_done(self.grid()[r as int][j]))),
                decreases 4 - c,
            {
                proof {
                    assert(self.grid()[r as int][c as int] == self.0@[r as int]@[c as int]);
                }
                match self.0[r][c] {
                    Some(card) => {
                        if !card.is_flipped() {
                            all = false;
                            proof {
                                assert(!cell_done(self.grid()[r as int][c as int]));
                            }
                        }
                    },
                    None => (),
                }
                c += 1;
            }
            r += 1;
        }
        all
    }

    /// The total of the face-up cards; face-down and empty cells count zero.
    pub fn score(&self) -> (result: i32)
        ensures
            result as int == self.spec_score(),
    {
        let mut total: i32 = 0;
        let mut r: usize = 0;
        while r < 3
            invariant
                r <= 3,
                total as int == rows_score_prefix(*self, r as int),
                -8 * r <= total as int <= 48 * r,
            decreases 3 - r,
        {
            let mut c: usize = 0;
            while c < 4
                invariant
                    c <= 4,
                    r < 3,
                    total as int == rows_score_prefix(*self, r as int) + row_score(
                        self.grid()[r as int].take(c as int),
                    ),
                    -8 * r - 2 * c <= total as int <= 48 * r + 12 * c,
                decreases 4 - c,
            {
                match self.0[r][c] {
                    Some(card) => {
                        if card.is_flipped() {
                            total += card.value.to_i32();
                        }
                    },
                    None => (),
                }
                proof {
                    assert(self.grid()[r as int].take(c + 1).drop_last() =~= self.grid()[r as int].take(
                        c as int,
                    ));
                    assert(self.grid()[r as int].take(c + 1).last() == self.grid()[r as int][c as int]);
                }
                c += 1;
            }
            proof {
                assert(self.grid()[r as int].take(4) =~= self.grid()[r as int]);
            }
            r += 1;
        }
        total
    }

    /// Turn every card still in the spread face up.
    pub fn flip_all(&mut self)
        ensures
            final(self).grid() == Seq::new(3, |r: int| Seq::new(4, |c: int| flip_cell(old(self).grid()[r][c]))),
    {
        let mut r: usize = 0;
        while r < 3
            invariant
                r <= 3,
                forall|i: int|
                    0 <= i < 3 ==> self.grid()[i] == if i < r {
                        Seq::new(4, |c: int| flip_cell(old(self).grid()[i][c]))
                    } else {
                        old(self).grid()[i]
                    },
            decreases 3 - r,
        {
            let ghost snap = *self;
            let mut cells: [Option<Card>; 4] = self.0[r];
            proof {
                assert(cells@ == snap.grid()[r as int]);
                assert(snap.grid()[r as int] == old(self).grid()[r as int]);
            }
            let mut c: usize = 0;
            while c < 4
                invariant
                    c <= 4,
                    r < 3,
                    cells@.len() == 4,
                    forall|j: int|
                        0 <= j < 4 ==> cells@[j] == if j < c {
                            flip_cell(old(self).grid()[r as int][j])
                        } else {
                            old(self).grid()[r as int][j]
                        },
                    forall|i: int|
                        0 <= i < 3 ==> self.grid()[i] == if i < r {
                            Seq::new(4, |k: int| flip_cell(old(self).grid()[i][k]))
                        } else {
                            old(self).grid()[i]
                        },
                decreases 4 - c,
            {
                match cells[c] {
                    Some(card) => {
                        cells[c] = Some(Card { value: card.value, flipped: true });
                    },
                    None => (),
                }
                c += 1;
            }
            self.0[r] = cells;
            proof {
                assert forall|i: int| 0 <= i < 3 implies self.grid()[i] == (if i < r + 1 {
                    Seq::new(4, |k: int| flip_cell(old(self).grid()[i][k]))
                } else {
                    old(self).grid()[i]
                }) by {
                    if i == r {
                        assert(self.grid()[i] == cells@);
                        assert(cells@ =~= Seq::new(
                            4,
                            |k: int| flip_cell(old(self).grid()[r as int][k]),
                        ));
                    } else {
                        assert(self.grid()[i] == snap.grid()[i]);
                    }
                }
            }
            r += 1;
        }
        proof {
            assert(final(self).grid() =~= Seq::new(
                3,
                |r: int| Seq::new(4, |c: int| flip_cell(old(self).grid()[r][c])),
            ));
        }
    }
}

/// The score contribution of the rows before row `r`.
pub open spec fn rows_score_prefix(spread: PlayerSpread, r: int) -> int {
    if r <= 0 {
        0
    } else if r == 1 {
        row_score(spread.grid()[0])
    } else if r == 2 {
        row_score(spread.grid()[0]) + row_score(spread.grid()[1])
    } else {
        spread.spec_score()
    }
}

/// The face-up count of the rows before row `r`.
pub open spec fn rows_flipped_prefix(spread: PlayerSpread, r: int) -> int {
    if r <= 0 {
        0
    } else if r == 1 {
        row_flipped_count(spread.grid()[0])
    } else if r == 2 {
        row_flipped_count(spread.grid()[0]) + row_flipped_count(spread.grid()[1])
    } else {
        spread.spec_flipped_count()
    }
}

/// The present cards of the rows before row `r`, in row-major order.
pub open spec fn rows_present_prefix(spread: PlayerSpread, r: int) -> Seq<Card> {
    if r <= 0 {
        Seq::<Card>::empty()
    } else if r == 1 {
        row_present_cards(spread.grid()[0])
    } else if r == 2 {
        row_present_cards(spread.grid()[0]) + row_present_cards(spread.grid()[1])
    } else {
        spread.spec_remaining()
    }
}

/// A row of at most four cells holds at most four cards.
proof fn lemma_row_present_count_bounds(row: Seq<Option<Card>>)
    ensures
        0 <= row_present_count(row) <= row.len(),
    decreases row.len(),
{
    if row.len() > 0 {
        lemma_row_present_count_bounds(row.drop_last());
    }
}

} // verus!
