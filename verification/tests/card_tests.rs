use strato::card::{Card, CardValue, Deck, DiscardPile, PlayerSpread};

#[test]
fn cards_have_value() {
    assert_eq!(CardValue::from_i32(-2), CardValue::NegativeTwo);
    assert_eq!(CardValue::from_i32(0), CardValue::Zero);
    assert_eq!(CardValue::from_i32(4), CardValue::Four);
    assert_eq!(CardValue::from_i32(12), CardValue::Twelve);

    assert_eq!(CardValue::NegativeTwo.to_i32(), -2);
    assert_eq!(CardValue::Zero.to_i32(), 0);
    assert_eq!(CardValue::Ten.to_i32(), 10);
}

#[test]
fn card_has_value_and_starts_hidden() {
    let card = Card::new(5);
    assert_eq!(card.value, CardValue::Five);
    assert!(!card.flipped);
}

#[test]
fn can_determine_card_value() {
    let unflipped = Card::new(5);
    assert_eq!(unflipped.get_value(), None);

    let mut negative_two = Card::new(-2);
    negative_two.flip();
    assert_eq!(negative_two.get_value(), Some(CardValue::NegativeTwo));

    let mut zero = Card::new(0);
    zero.flip();
    assert_eq!(zero.get_value(), Some(CardValue::Zero));

    let mut twelve = Card::new(12);
    twelve.flip();
    assert_eq!(twelve.get_value(), Some(CardValue::Twelve));
}

#[test]
fn can_initialize_deck_in_order() {
    let mut deck = Deck::default();
    assert_eq!(deck.draw(), Some(Card::new(12)));
}

#[test]
fn deck_has_a_size() {
    let mut deck = Deck::default();
    assert_eq!(deck.size(), 150);
    deck.draw();
    deck.draw();
    deck.draw();
    assert_eq!(deck.size(), 147);
}

#[test]
fn a_deck_can_be_depleted() {
    let mut deck = Deck::default();

    for _ in 1..deck.size() {
        deck.draw();
    }

    let last_card = deck.draw();
    assert_eq!(last_card, Some(Card::new(-2)));

    // now depleted
    assert_eq!(deck.draw(), None);
    assert_eq!(deck.size(), 0);
}

#[test]
fn deck_can_be_shuffled() {
    let mut deck = Deck::default();
    let snapshot = deck.clone();
    deck.shuffle();
    assert_eq!(deck.size(), 150);
    assert_ne!(deck, snapshot);
}

#[test]
fn small_deck_can_be_shuffled() {
    let mut deck = Deck::default();

    for _ in 0..(deck.size() - 10) {
        deck.draw();
    }
    assert_eq!(deck.size(), 10);

    let snapshot = deck.clone();
    deck.shuffle();
    assert_ne!(deck, snapshot);
}

#[test]
fn shuffling_keeps_every_card() {
    let mut deck = Deck::default();
    deck.shuffle();
    assert_eq!(deck.size(), 150);

    let mut counts = [0usize; 15];
    while let Some(card) = deck.draw() {
        counts[(card.value.to_i32() + 2) as usize] += 1;
    }
    for count in counts {
        assert_eq!(count, 10);
    }
}

#[test]
fn a_new_pile_is_empty() {
    let mut pile = DiscardPile::new();
    assert_eq!(pile.size(), 0);
    assert_eq!(pile.take(), None);

    let mut card = Card::new(7);
    card.flip();
    pile.put(card);
    assert_eq!(pile.size(), 1);
    assert_eq!(pile.take(), Some(card));
    assert_eq!(pile.size(), 0);
}

fn init_player_spread() -> PlayerSpread {
    let mut deck = Deck::default();
    deck.shuffle();

    let mut spread = PlayerSpread::new();

    for row in 0..3 {
        for column in 0..4 {
            let card = deck.draw().unwrap();
            spread.place_at(card, row, column).unwrap();
        }
    }

    spread
}

#[test]
fn a_player_spread_can_provide_counts() {
    let mut spread = init_player_spread();

    assert_eq!(spread.flipped_cards(), 0);
    assert_eq!(spread.active_columns(), 4);

    spread.flip_at(0, 0).unwrap();
    spread.flip_at(1, 0).unwrap();
    spread.flip_at(2, 0).unwrap();

    assert_eq!(spread.flipped_cards(), 3);
}

#[test]
fn a_filled_but_unflipped_player_spread_has_a_score_of_0() {
    let spread = init_player_spread();
    assert_eq!(spread.score(), 0);
}

#[test]
fn a_player_spread_can_provide_a_score_1() {
    let mut spread = init_player_spread();
    assert_eq!(spread.score(), 0);

    let (row, column) = (1, 1);
    spread.take_from(row, column).unwrap(); // clear existing card

    let negative_two = Card::new(-2);
    spread.place_at(negative_two, row, column).unwrap(); // insert card
    spread.flip_at(row, column).unwrap(); // flip card

    assert_eq!(spread.score(), -2);
}

#[test]
fn a_player_spread_can_provide_a_score_2() {
    let mut spread = PlayerSpread::new();
    assert_eq!(spread.score(), 0);

    let mut one = Card::new(1);
    one.flip();
    spread.place_at(one, 0, 0).unwrap();

    let mut five = Card::new(5);
    five.flip();
    spread.place_at(five, 1, 0).unwrap();

    let mut ten = Card::new(10);
    ten.flip();
    spread.place_at(ten, 2, 1).unwrap();

    let mut negative_one = Card::new(-1);
    negative_one.flip();
    spread.place_at(negative_one, 0, 3).unwrap();

    assert_eq!(spread.score(), 15);
}
