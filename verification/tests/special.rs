use tile_trek::movement::{
    DeckCard, DrawCardEvent, MovementCard, MovementCardsDrawnEvent, MovementPointsUpdateEvent,
    Place,
};
use tile_trek::special_cards::{
    generate_cards, on_movement_cards_drawn, on_special_card_selected, resolve,
    selected_special_card_close, setup_special_cards, setup_special_cards_with, CardSignal,
    CardType, Offer, OfferStatus, OfferedCard, SpecialCard, SpecialCardClosed,
    SpecialCardSelected, SpecialCardSelectedBlockerClose, CARDS_TO_DRAW, CATALOGUE_SIZE,
};
use tile_trek::tiles::{Tile, TileType};
use tile_trek::turns::TurnsUpdateEvent;

fn card(name: &str, value: u32, place: Place) -> DeckCard {
    DeckCard { card: MovementCard { name: String::from(name), value }, place }
}

fn hand() -> Vec<DeckCard> {
    vec![
        card("A", 3, Place::Hand),
        card("S", 9, Place::Stock),
        card("B", 5, Place::Hand),
        card("C", 3, Place::Hand),
    ]
}

fn tiles() -> Vec<Tile> {
    (0..11)
        .map(|n| Tile {
            cost: 4,
            description: String::from("somewhere"),
            number: n,
            tile_type: TileType::MovementPointsUpdate,
            value: -2,
            duration: 0,
            current: n == 6,
        })
        .collect()
}

fn special(value: i32, card_type: CardType) -> SpecialCard {
    SpecialCard {
        name: String::from("name"),
        tag: String::from("<tag>"),
        description: String::from("what it does"),
        value,
        card_type,
    }
}

fn offered(value: i32, card_type: CardType, status: OfferStatus) -> OfferedCard {
    OfferedCard { card: special(value, card_type), status }
}

fn values(deck: &[DeckCard]) -> Vec<u32> {
    deck.iter().map(|c| c.card.value).collect()
}

#[test]
fn catalogue_holds_the_fourteen_special_cards() {
    let cards = generate_cards();
    assert_eq!(cards.len(), 14);
    assert_eq!(cards.len(), CATALOGUE_SIZE);
    let summary: Vec<(String, String, i32, CardType)> = cards
        .iter()
        .map(|c| (c.name.clone(), c.tag.clone(), c.value, c.card_type))
        .collect();
    let expected = vec![
        ("Scathe", "<Naughty>", 2, CardType::MovementPointsSubHighest),
        ("Motivity", "<Nice>", 2, CardType::MovementPointsMultiplyLeastCard),
        ("Lucky Draw", "<Nice>", 1, CardType::DrawMovementCard),
        ("Aw Snap!", "<Naughty>", -1, CardType::MovementPointsUpdate),
        ("Overdraw", "<Naughty>", -2, CardType::MovementPointsUpdate),
        ("Tip the scales", "<Nice>", 2, CardType::MovementPointsUpdate),
        ("Paid For", "<Nice>", 0, CardType::CurrentTileCostDirectChange),
        ("Mutator", "<Naughty or Nice>", -1, CardType::CurrentTileCostDirectChange),
        ("Arduous", "<Naughty>", 10, CardType::CurrentTileCostDirectChange),
        ("Twice Lucky?", "<Naughty or Nice>", 2, CardType::DrawMovementCard),
        ("Torpid", "<Naughty>", 1, CardType::MovementPointsReductionAllCards),
        ("Second Chance", "<Nice>", 1, CardType::TurnUpdate),
        ("Inflation", "<Naughty>", 1, CardType::CurrentTileCostIndirectChange),
        ("Erase", "<Nice>", 0, CardType::Erase),
    ];
    let expected: Vec<(String, String, i32, CardType)> = expected
        .into_iter()
        .map(|(n, t, v, k)| (String::from(n), String::from(t), v, k))
        .collect();
    assert_eq!(summary, expected);
    assert_eq!(
        cards[0].description,
        "Take off 2 movement points from movement card with the highest movement points in your hand"
    );
    assert_eq!(
        cards[1].description,
        "Double the movement points of the card with the least points in your hand"
    );
    assert_eq!(cards[2].description, "Draw another movement card");
    assert_eq!(cards[3].description, "Lose 1 movement point");
    assert_eq!(cards[4].description, "Lose 2 movement points");
    assert_eq!(cards[5].description, "Add 2 movement points");
    assert_eq!(cards[6].description, "Change the cost of the current tile to 0");
    assert_eq!(cards[7].description, "Randomly mutate the cost of the current tile");
    assert_eq!(cards[8].description, "Change the cost of the current tile to 10");
    assert_eq!(cards[9].description, "Discard current hand and draw new cards");
    assert_eq!(
        cards[10].description,
        "Reduce all movement points of the cards in your hand to 1"
    );
    assert_eq!(cards[11].description, "Add a turn");
    assert_eq!(cards[12].description, "Increase the current tile cost by 1");
    assert_eq!(cards[13].description, "Erase the cost and effects of the current tile");
}

#[test]
fn catalogue_names_are_unique_and_every_kind_occurs() {
    let cards = generate_cards();
    for i in 0..cards.len() {
        for j in (i + 1)..cards.len() {
            assert_ne!(cards[i].name, cards[j].name);
        }
    }
    for kind in [
        CardType::DrawMovementCard,
        CardType::MovementPointsUpdate,
        CardType::TurnUpdate,
        CardType::MovementPointsSubHighest,
        CardType::CurrentTileCostDirectChange,
        CardType::CurrentTileCostIndirectChange,
        CardType::MovementPointsMultiplyLeastCard,
        CardType::MovementPointsReductionAllCards,
        CardType::Erase,
    ] {
        assert!(cards.iter().any(|c| c.card_type == kind));
    }
}

#[test]
fn offer_is_laid_out_from_the_picks() {
    assert_eq!(CARDS_TO_DRAW, 8);
    let picks: Vec<usize> = vec![13, 0, 11, 0, 0, 0, 0, 6];
    let offer = setup_special_cards_with(&picks).expect("the picks can be made");
    let names: Vec<String> = offer.iter().map(|c| c.card.name.clone()).collect();
    assert_eq!(
        names,
        vec![
            "Erase",
            "Scathe",
            "Inflation",
            "Motivity",
            "Lucky Draw",
            "Aw Snap!",
            "Overdraw",
            "Second Chance"
        ]
    );
    assert!(offer.iter().all(|c| c.status == OfferStatus::Covered));
    assert_eq!(Some(offer), setup_special_cards_with(&picks));
    assert_eq!(setup_special_cards_with(&vec![0; 7]), None);
    assert_eq!(setup_special_cards_with(&vec![0; 9]), None);
    assert_eq!(setup_special_cards_with(&vec![14, 0, 0, 0, 0, 0, 0, 0]), None);
    assert_eq!(setup_special_cards_with(&vec![0, 0, 0, 0, 0, 0, 0, 7]), None);
    assert!(setup_special_cards_with(&vec![13, 12, 11, 10, 9, 8, 7, 6]).is_some());
}

#[test]
fn random_offer_shows_eight_different_cards() {
    for _ in 0..100 {
        let (offer, picks) = setup_special_cards();
        assert_eq!(offer.len(), 8);
        assert_eq!(picks.len(), 8);
        for (k, pick) in picks.iter().enumerate() {
            assert!(*pick < 14 - k);
        }
        for i in 0..offer.len() {
            for j in (i + 1)..offer.len() {
                assert_ne!(offer[i].card.name, offer[j].card.name);
            }
        }
        let catalogue = generate_cards();
        assert!(offer.iter().all(|c| catalogue.contains(&c.card)));
        assert!(offer.iter().all(|c| c.status == OfferStatus::Covered));
        assert_eq!(Some(offer), setup_special_cards_with(&picks));
    }
}

#[test]
fn draw_card_asks_for_a_draw() {
    let (mut deck, mut board) = (hand(), tiles());
    let signal = resolve(CardType::DrawMovementCard, 2, &mut deck, &mut board);
    assert_eq!(signal, CardSignal::DrawCard(DrawCardEvent(2)));
    assert_eq!(deck, hand());
    assert_eq!(board, tiles());
    let signal = resolve(CardType::DrawMovementCard, 0, &mut deck, &mut board);
    assert_eq!(signal, CardSignal::DrawCard(DrawCardEvent(0)));
    let signal = resolve(CardType::DrawMovementCard, -1, &mut deck, &mut board);
    assert_eq!(signal, CardSignal::DrawCard(DrawCardEvent(u32::MAX)));
}

#[test]
fn counter_cards_send_their_value() {
    let (mut deck, mut board) = (hand(), tiles());
    assert_eq!(
        resolve(CardType::MovementPointsUpdate, -2, &mut deck, &mut board),
        CardSignal::MovementPoints(MovementPointsUpdateEvent(-2))
    );
    assert_eq!(
        resolve(CardType::TurnUpdate, 1, &mut deck, &mut board),
        CardSignal::Turns(TurnsUpdateEvent(1))
    );
    assert_eq!(deck, hand());
    assert_eq!(board, tiles());
}

#[test]
fn hand_cards_change_the_hand_alone() {
    let (mut deck, mut board) = (hand(), tiles());
    assert_eq!(
        resolve(CardType::MovementPointsSubHighest, 2, &mut deck, &mut board),
        CardSignal::Nothing
    );
    assert_eq!(values(&deck), vec![3, 9, 3, 3]);
    assert_eq!(
        resolve(CardType::MovementPointsMultiplyLeastCard, 2, &mut deck, &mut board),
        CardSignal::Nothing
    );
    assert_eq!(values(&deck), vec![6, 9, 3, 3]);
    assert_eq!(
        resolve(CardType::MovementPointsReductionAllCards, 1, &mut deck, &mut board),
        CardSignal::Nothing
    );
    assert_eq!(values(&deck), vec![1, 9, 1, 1]);
    assert_eq!(board, tiles());
}

#[test]
fn tile_cards_change_the_current_tile_alone() {
    let (mut deck, mut board) = (hand(), tiles());
    assert_eq!(
        resolve(CardType::CurrentTileCostDirectChange, 10, &mut deck, &mut board),
        CardSignal::Nothing
    );
    assert_eq!(board[6].cost, 10);
    assert_eq!(
        resolve(CardType::CurrentTileCostIndirectChange, 1, &mut deck, &mut board),
        CardSignal::Nothing
    );
    assert_eq!(board[6].cost, 11);
    assert_eq!(
        resolve(CardType::CurrentTileCostDirectChange, -1, &mut deck, &mut board),
        CardSignal::Nothing
    );
    assert_eq!(board[6].cost, 0);
    assert_eq!(resolve(CardType::Erase, 0, &mut deck, &mut board), CardSignal::Nothing);
    assert_eq!(board[6].cost, 0);
    assert_eq!(board[6].tile_type, TileType::Plain);
    assert_eq!(board[6].description, "Erased!");
    let untouched = tiles();
    for k in 0..11 {
        if k != 6 {
            assert_eq!(board[k], untouched[k]);
        }
    }
    assert_eq!(deck, hand());
}

#[test]
fn drawn_movement_cards_open_the_offer() {
    let mut offer = Offer::new(vec![
        offered(1, CardType::TurnUpdate, OfferStatus::Covered),
        offered(2, CardType::TurnUpdate, OfferStatus::Discarded),
        offered(3, CardType::TurnUpdate, OfferStatus::Selectable),
    ]);
    assert!(!offer.is_selectable(0));
    on_movement_cards_drawn(&mut offer, MovementCardsDrawnEvent);
    let status: Vec<OfferStatus> = offer.cards.iter().map(|c| c.status).collect();
    assert_eq!(
        status,
        vec![OfferStatus::Selectable, OfferStatus::Discarded, OfferStatus::Selectable]
    );
    assert_eq!(offer.selected, None);
    assert!(offer.is_selectable(0));
    assert!(!offer.is_selectable(1));
    assert!(offer.is_selectable(2));
    assert!(!offer.is_selectable(3));
}

#[test]
fn chosen_card_is_played_and_discarded() {
    let mut offer = Offer::new(vec![
        offered(1, CardType::TurnUpdate, OfferStatus::Selectable),
        offered(2, CardType::MovementPointsSubHighest, OfferStatus::Selectable),
        offered(3, CardType::TurnUpdate, OfferStatus::Discarded),
        offered(4, CardType::TurnUpdate, OfferStatus::Covered),
    ]);
    on_special_card_selected(&mut offer, SpecialCardSelected(1));
    assert_eq!(offer.selected, Some(1));
    assert!(!offer.is_selectable(0));
    let (mut deck, mut board) = (hand(), tiles());
    let (signal, closed) = selected_special_card_close(
        &mut offer,
        &mut deck,
        &mut board,
        SpecialCardSelectedBlockerClose,
    );
    assert_eq!(signal, CardSignal::Nothing);
    assert_eq!(closed, SpecialCardClosed);
    assert_eq!(offer.selected, None);
    let status: Vec<OfferStatus> = offer.cards.iter().map(|c| c.status).collect();
    assert_eq!(
        status,
        vec![
            OfferStatus::Covered,
            OfferStatus::Discarded,
            OfferStatus::Discarded,
            OfferStatus::Covered
        ]
    );
    assert_eq!(values(&deck), vec![3, 9, 3, 3]);
    assert_eq!(board, tiles());
    assert_eq!(offer.cards[1].card, special(2, CardType::MovementPointsSubHighest));
}

#[test]
fn closing_without_a_chosen_card_asks_for_no_draw() {
    let mut offer = Offer::new(vec![offered(1, CardType::TurnUpdate, OfferStatus::Selectable)]);
    let (mut deck, mut board) = (hand(), tiles());
    let (signal, _) = selected_special_card_close(
        &mut offer,
        &mut deck,
        &mut board,
        SpecialCardSelectedBlockerClose,
    );
    assert_eq!(signal, CardSignal::DrawCard(DrawCardEvent(0)));
    assert_eq!(offer.cards[0].status, OfferStatus::Covered);
    assert_eq!(deck, hand());
    assert_eq!(board, tiles());
}

#[test]
fn default_special_card_draws_nothing() {
    assert_eq!(SpecialCard::default(), SpecialCard {
        name: String::new(),
        tag: String::new(),
        description: String::new(),
        value: 0,
        card_type: CardType::DrawMovementCard,
    });
    assert_eq!(CardType::default(), CardType::DrawMovementCard);
}
