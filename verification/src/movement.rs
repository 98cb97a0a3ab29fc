//! Movement points and the movement cards that earn them: the stock from
//! which cards are drawn, the hand, and the discard pile.

use crate::ledger::{
    apply_delta, counter_after, lemma_total_of_one, lemma_wrap_absorbs, lowered, multiplied,
    signed_of, to_signed, to_unsigned, total, wrap_u32,
};
use crate::sampling::{
    lemma_sample_lengths, lemma_sample_of_mapped, picks_fit, picks_of, sample, sample_at_random,
    sampled,
};
use crate::special_cards::SpecialCardClosed;
use crate::tiles::TileClosedEvent;
use vstd::prelude::*;

verus! {

/// The movement points with which a game starts.
pub const MOVEMENT_POINTS_INIT_VALUE: i32 = 0;

/// The number of movement cards that are drawn when a tile has been closed.
pub const CARDS_TO_DRAW: u32 = 2;

/// The number of movement cards in a game.
pub const DECK_SIZE: usize = 15;

/// The movement points that the player has gathered.
#[derive(Clone, Copy, Debug, PartialEq, Eq, Structural)]
pub struct MovementPoints(pub i32);

/// A message that changes the movement points by its delta.
#[derive(Clone, Copy, Debug, PartialEq, Eq, Structural)]
pub struct MovementPointsUpdateEvent(pub i32);

/// A message that asks for as many movement cards to be drawn.
#[derive(Clone, Copy, Debug, PartialEq, Eq, Structural)]
pub struct DrawCardEvent(pub u32);

/// The message that movement cards have been drawn.
#[derive(Clone, Copy, Debug, PartialEq, Eq, Structural)]
pub struct MovementCardsDrawnEvent;

/// The message that the hand has been played.
#[derive(Clone, Copy, Debug, PartialEq, Eq, Structural)]
pub struct MovementCardsPlayedEvent;

/// A movement card. Its value is kept modulo 2^32.
#[derive(Clone, Debug, PartialEq, Eq)]
pub struct MovementCard {
    pub name: String,
    pub value: u32,
}

impl Default for MovementCard {
    /// A card without a name that is worth nothing.
    fn default() -> (card: MovementCard)
        ensures
            card@ == (MovementCardView { name: Seq::<char>::empty(), value: 0 }),
    {
        MovementCard { name: String::new(), value: 0 }
    }
}

/// A movement card as a plain value, its name as a sequence of characters.
pub struct MovementCardView {
    pub name: Seq<char>,
    pub value: u32,
}

impl View for MovementCard {
    type V = MovementCardView;

    open spec fn view(&self) -> MovementCardView {
        MovementCardView { name: self.name@, value: self.value }
    }
}

/// The views of a sequence of movement cards.
pub open spec fn movement_card_views(cards: Seq<MovementCard>) -> Seq<MovementCardView> {
    cards.map_values(|c: MovementCard| c@)
}

/// Where a movement card lies.
#[derive(Clone, Copy, Debug, PartialEq, Eq, Structural)]
pub enum Place {
    /// Not drawn yet.
    Stock,
    /// Drawn and not played yet.
    Hand,
    /// Played or thrown away; such a card never comes back.
    Discarded,
}

/// A movement card of the game, with the place where it lies.
#[derive(Clone, Debug, PartialEq, Eq)]
pub struct DeckCard {
    pub card: MovementCard,
    pub place: Place,
}

/// The cards of a deck, as plain values.
pub open spec fn deck_views(deck: Seq<DeckCard>) -> Seq<MovementCardView> {
    deck.map_values(|c: DeckCard| c.card@)
}

/// The deltas that a batch of messages carries, in their order.
pub open spec fn movement_deltas(events: Seq<MovementPointsUpdateEvent>) -> Seq<int> {
    events.map_values(|e: MovementPointsUpdateEvent| e.0 as int)
}

impl MovementPoints {
    /// The movement points at the start of a game.
    pub fn new() -> (points: MovementPoints)
        ensures
            points.0 == MOVEMENT_POINTS_INIT_VALUE,
    {
        MovementPoints(MOVEMENT_POINTS_INIT_VALUE)
    }

    /// Adds `delta` to the movement points. Nothing is clamped: the points
    /// may fall below zero.
    pub fn apply_movement_delta(&mut self, delta: i32)
        ensures
            final(self).0 == counter_after(old(self).0 as int, seq![delta as int]),
            i32::MIN <= old(self).0 + delta <= i32::MAX ==> final(self).0 == old(self).0 + delta,
    {
        proof {
            lemma_total_of_one(delta as int);
        }
        self.0 = apply_delta(self.0, delta);
    }
}

/// Applies every message of the batch to the movement points.
pub fn update_movement_points(
    movement_points: &mut MovementPoints,
    movement_points_update: &Vec<MovementPointsUpdateEvent>,
)
    ensures
        final(movement_points).0 == counter_after(
            old(movement_points).0 as int,
            movement_deltas(movement_points_update@),
        ),
{
    let ghost deltas = movement_deltas(movement_points_update@);
    let mut k: usize = 0;
    while k < movement_points_update.len()
        invariant
            k <= movement_points_update.len(),
            deltas == movement_deltas(movement_points_update@),
            movement_points.0 == counter_after(
                old(movement_points).0 as int,
                deltas.take(k as int),
            ),
        decreases movement_points_update.len() - k,
    {
        proof {
            assert(deltas.take(k + 1).drop_last() =~= deltas.take(k as int));
            assert(deltas.take(k + 1).last() == movement_points_update@[k as int].0);
            lemma_wrap_absorbs(
                old(movement_points).0 + total(deltas.take(k as int)),
                movement_points_update@[k as int].0 as int,
            );
        }
        movement_points.0 = apply_delta(movement_points.0, movement_points_update[k].0);
        k += 1;
    }
    proof {
        assert(deltas.take(k as int) =~= deltas);
    }
}

/// The number of cards of `deck` that lie in the stock.
pub open spec fn stock_count(deck: Seq<DeckCard>) -> nat
    decreases deck.len(),
{
    if deck.len() == 0 {
        0
    } else {
        stock_count(deck.drop_last()) + if deck.last().place == Place::Stock {
            1nat
        } else {
            0nat
        }
    }
}

/// Whether a draw of `count` cards takes the card at `i`: it lies in the
/// stock, and fewer than `count` cards of the stock lie before it.
pub open spec fn is_drawn(deck: Seq<DeckCard>, i: int, count: int) -> bool {
    deck[i].place == Place::Stock && stock_count(deck.take(i)) < count
}

/// The deck after `count` cards were drawn: the first `count` cards of the
/// stock, or all of them where the stock holds fewer, have come to the hand.
pub open spec fn after_draw(deck: Seq<DeckCard>, count: int) -> Seq<DeckCard> {
    Seq::new(
        deck.len(),
        |i: int|
            if is_drawn(deck, i, count) {
                DeckCard { card: deck[i].card, place: Place::Hand }
            } else {
                deck[i]
            },
    )
}

/// The deck after the hand was put away: every card of the hand lies
/// discarded.
pub open spec fn after_discard(deck: Seq<DeckCard>) -> Seq<DeckCard> {
    Seq::new(
        deck.len(),
        |i: int|
            if deck[i].place == Place::Hand {
                DeckCard { card: deck[i].card, place: Place::Discarded }
            } else {
                deck[i]
            },
    )
}

/// What the cards of the hand are worth, in the order of the deck. A value is
/// read as the signed value of its 32 bits, so that a card which was pushed
/// below zero counts as a loss.
pub open spec fn hand_credits(deck: Seq<DeckCard>) -> Seq<int>
    decreases deck.len(),
{
    if deck.len() == 0 {
        Seq::empty()
    } else if deck.last().place == Place::Hand {
        hand_credits(deck.drop_last()).push(signed_of(deck.last().card.value))
    } else {
        hand_credits(deck.drop_last())
    }
}

/// The places in the deck of the cards of the hand, in the order of the deck.
pub open spec fn hand_places(deck: Seq<DeckCard>) -> Seq<int>
    decreases deck.len(),
{
    if deck.len() == 0 {
        Seq::empty()
    } else if deck.last().place == Place::Hand {
        hand_places(deck.drop_last()).push(deck.len() - 1)
    } else {
        hand_places(deck.drop_last())
    }
}

/// The places in the deck of the cards of the hand, in the order of the deck.
pub fn hand(deck: &Vec<DeckCard>) -> (places: Vec<usize>)
    ensures
        places@.map_values(|p: usize| p as int) == hand_places(deck@),
{
    let mut places: Vec<usize> = Vec::new();
    let mut i: usize = 0;
    while i < deck.len()
        invariant
            i <= deck@.len(),
            places@.map_values(|p: usize| p as int) == hand_places(deck@.take(i as int)),
        decreases deck@.len() - i,
    {
        proof {
            assert(deck@.take(i + 1).drop_last() =~= deck@.take(i as int));
            assert(deck@.take(i + 1).last() == deck@[i as int]);
        }
        if deck[i].place == Place::Hand {
            let ghost before = places@;
            places.push(i);
            proof {
                assert(places@.map_values(|p: usize| p as int) =~= before.map_values(
                    |p: usize| p as int,
                ).push(i as int));
            }
        }
        i += 1;
    }
    proof {
        assert(deck@.take(i as int) =~= deck@);
    }
    places
}

/// The stock never holds more cards than the deck.
pub proof fn lemma_stock_count_bound(deck: Seq<DeckCard>)
    ensures
        stock_count(deck) <= deck.len(),
    decreases deck.len(),
{
    if deck.len() > 0 {
        lemma_stock_count_bound(deck.drop_last());
    }
}

/// Asking for more cards than the deck holds draws what asking for the whole
/// deck draws.
pub proof fn lemma_draw_is_capped(deck: Seq<DeckCard>, count: int, other: int)
    requires
        count >= deck.len(),
        other >= deck.len(),
    ensures
        after_draw(deck, count) == after_draw(deck, other),
{
    assert forall|i: int| 0 <= i < deck.len() implies is_drawn(deck, i, count) == is_drawn(
        deck,
        i,
        other,
    ) by {
        lemma_stock_count_bound(deck.take(i));
    }
    assert(after_draw(deck, count) =~= after_draw(deck, other));
}

/// Draws `count` cards from the stock into the hand, in the order of the
/// deck. Where the stock holds fewer cards, all of them are drawn.
pub fn draw_cards(deck: &mut Vec<DeckCard>, count: u64)
    ensures
        final(deck)@ == after_draw(old(deck)@, count as int),
{
    let mut i: usize = 0;
    let mut drawn: u64 = 0;
    while i < deck.len()
        invariant
            i <= deck@.len() == old(deck)@.len(),
            drawn <= i,
            drawn <= count,
            drawn < count ==> drawn == stock_count(old(deck)@.take(i as int)),
            drawn == count ==> stock_count(old(deck)@.take(i as int)) >= count,
            forall|j: int|
                0 <= j < i ==> #[trigger] deck@[j] == after_draw(old(deck)@, count as int)[j],
            forall|j: int| i <= j < deck@.len() ==> #[trigger] deck@[j] == old(deck)@[j],
        decreases deck@.len() - i,
    {
        proof {
            assert(old(deck)@.take(i + 1).drop_last() =~= old(deck)@.take(i as int));
            assert(old(deck)@.take(i + 1).last() == old(deck)@[i as int]);
        }
        if drawn < count && deck[i].place == Place::Stock {
            deck[i].place = Place::Hand;
            drawn += 1;
        }
        i += 1;
    }
    assert(deck@ =~= after_draw(old(deck)@, count as int));
}

/// Puts the hand away: every card of the hand lies discarded afterwards, and
/// nothing is credited for it.
pub fn discard_hand(deck: &mut Vec<DeckCard>)
    ensures
        final(deck)@ == after_discard(old(deck)@),
{
    let mut i: usize = 0;
    while i < deck.len()
        invariant
            i <= deck@.len() == old(deck)@.len(),
            forall|j: int| 0 <= j < i ==> #[trigger] deck@[j] == after_discard(old(deck)@)[j],
            forall|j: int| i <= j < deck@.len() ==> #[trigger] deck@[j] == old(deck)@[j],
        decreases deck@.len() - i,
    {
        if deck[i].place == Place::Hand {
            deck[i].place = Place::Discarded;
        }
        i += 1;
    }
    assert(deck@ =~= after_discard(old(deck)@));
}

/// A tile has been closed: the player draws `CARDS_TO_DRAW` movement cards.
pub fn on_tile_closed_event(deck: &mut Vec<DeckCard>, event: TileClosedEvent) -> (cards_drawn:
    MovementCardsDrawnEvent)
    ensures
        final(deck)@ == after_draw(old(deck)@, CARDS_TO_DRAW as int),
{
    draw_cards(deck, CARDS_TO_DRAW as u64);
    MovementCardsDrawnEvent
}

/// The number of cards that a batch of draw requests asks for.
pub open spec fn requested_draws(events: Seq<DrawCardEvent>) -> int {
    total(events.map_values(|e: DrawCardEvent| e.0 as int))
}

/// The deck after a draw of `count` cards was requested: a request for more
/// than one card first puts the hand away, with nothing credited for it.
pub open spec fn after_draw_request(deck: Seq<DeckCard>, count: int) -> Seq<DeckCard> {
    if count > 1 {
        after_draw(after_discard(deck), count)
    } else {
        after_draw(deck, count)
    }
}

/// Cards were requested: as many as all the requests of the batch ask for
/// together are drawn. A request for more than one card first puts the hand
/// away.
pub fn on_draw_card(deck: &mut Vec<DeckCard>, events: &Vec<DrawCardEvent>)
    ensures
        final(deck)@ == after_draw_request(old(deck)@, requested_draws(events@)),
{
    let ghost asked = events@.map_values(|e: DrawCardEvent| e.0 as int);
    let size = deck.len();
    let mut count: u64 = 0;
    let mut k: usize = 0;
    while k < events.len()
        invariant
            k <= events.len(),
            asked == events@.map_values(|e: DrawCardEvent| e.0 as int),
            0 <= total(asked.take(k as int)),
            count < u64::MAX ==> count == total(asked.take(k as int)),
            count == u64::MAX ==> total(asked.take(k as int)) >= u64::MAX,
        decreases events.len() - k,
    {
        proof {
            assert(asked.take(k + 1).drop_last() =~= asked.take(k as int));
            assert(asked.take(k + 1).last() == events@[k as int].0);
        }
        count = count.saturating_add(events[k].0 as u64);
        k += 1;
    }
    proof {
        assert(asked.take(k as int) =~= asked);
    }
    if count > 1 {
        discard_hand(deck);
    }
    proof {
        let before = if count > 1 {
            after_discard(old(deck)@)
        } else {
            old(deck)@
        };
        if count == u64::MAX {
            assert(before.len() == size <= usize::MAX <= u64::MAX);
            lemma_draw_is_capped(before, count as int, requested_draws(events@));
        }
    }
    draw_cards(deck, count);
}

/// The special card has been closed: the hand is played. Every card of the
/// hand is discarded, and for each a message credits its value to the
/// movement points.
pub fn on_special_card_closed_event(deck: &mut Vec<DeckCard>, event: SpecialCardClosed) -> (out: (
    Vec<MovementPointsUpdateEvent>,
    MovementCardsPlayedEvent,
))
    ensures
        final(deck)@ == after_discard(old(deck)@),
        movement_deltas(out.0@) == hand_credits(old(deck)@),
{
    let mut credits: Vec<MovementPointsUpdateEvent> = Vec::new();
    let mut i: usize = 0;
    while i < deck.len()
        invariant
            i <= deck@.len() == old(deck)@.len(),
            movement_deltas(credits@) == hand_credits(old(deck)@.take(i as int)),
            forall|j: int| 0 <= j < i ==> #[trigger] deck@[j] == after_discard(old(deck)@)[j],
            forall|j: int| i <= j < deck@.len() ==> #[trigger] deck@[j] == old(deck)@[j],
        decreases deck@.len() - i,
    {
        proof {
            assert(old(deck)@.take(i + 1).drop_last() =~= old(deck)@.take(i as int));
            assert(old(deck)@.take(i + 1).last() == old(deck)@[i as int]);
        }
        if deck[i].place == Place::Hand {
            deck[i].place = Place::Discarded;
            let ghost before = credits@;
            credits.push(MovementPointsUpdateEvent(to_signed(deck[i].card.value)));
            proof {
                assert(movement_deltas(credits@) =~= movement_deltas(before).push(
                    signed_of(old(deck)@[i as int].card.value),
                ));
            }
        }
        i += 1;
    }
    proof {
        assert(old(deck)@.take(i as int) =~= old(deck)@);
        assert(deck@ =~= after_discard(old(deck)@));
    }
    (credits, MovementCardsPlayedEvent)
}

/// The movement cards of a game, as they are generated: five cards worth one
/// point, four worth two, three worth three, two worth four and one worth
/// five.
pub open spec fn movement_card_pool() -> Seq<MovementCardView> {
    Seq::new(
        DECK_SIZE as nat,
        |i: int|
            if i < 5 {
                MovementCardView { name: "Crawl"@, value: 1 }
            } else if i < 9 {
                MovementCardView { name: "Stride"@, value: 2 }
            } else if i < 12 {
                MovementCardView { name: "Brisk"@, value: 3 }
            } else if i < 14 {
                MovementCardView { name: "Dash"@, value: 4 }
            } else {
                MovementCardView { name: "Rush"@, value: 5 }
            },
    )
}

fn push_copies(cards: &mut Vec<MovementCard>, name: &str, value: u32, copies: usize)
    ensures
        movement_card_views(final(cards)@) == movement_card_views(old(cards)@) + Seq::new(
            copies as nat,
            |i: int| MovementCardView { name: name@, value },
        ),
{
    let mut k: usize = 0;
    while k < copies
        invariant
            k <= copies,
            movement_card_views(cards@) == movement_card_views(old(cards)@) + Seq::new(
                k as nat,
                |i: int| MovementCardView { name: name@, value },
            ),
        decreases copies - k,
    {
        let ghost before = cards@;
        cards.push(MovementCard { name: name.to_owned(), value });
        k += 1;
        proof {
            assert(movement_card_views(cards@) =~= movement_card_views(before).push(
                MovementCardView { name: name@, value },
            ));
            assert(movement_card_views(cards@) =~= movement_card_views(old(cards)@) + Seq::new(
                k as nat,
                |i: int| MovementCardView { name: name@, value },
            ));
        }
    }
}

/// The movement cards of a game.
pub fn generate_cards() -> (cards: Vec<MovementCard>)
    ensures
        movement_card_views(cards@) == movement_card_pool(),
        cards@.len() == DECK_SIZE,
{
    let mut cards: Vec<MovementCard> = Vec::with_capacity(DECK_SIZE);
    assert(movement_card_views(cards@) =~= Seq::<MovementCardView>::empty());
    push_copies(&mut cards, "Crawl", 1, 5);
    push_copies(&mut cards, "Stride", 2, 4);
    push_copies(&mut cards, "Brisk", 3, 3);
    push_copies(&mut cards, "Dash", 4, 2);
    push_copies(&mut cards, "Rush", 5, 1);
    assert(movement_card_views(cards@) =~= movement_card_pool());
    cards
}

/// Whether every card of the deck lies in the stock.
pub open spec fn all_in_stock(deck: Seq<DeckCard>) -> bool {
    forall|k: int| 0 <= k < deck.len() ==> (#[trigger] deck[k]).place == Place::Stock
}

/// Puts the sampled cards on the stock, in their order.
fn stack(cards: Vec<MovementCard>) -> (deck: Vec<DeckCard>)
    ensures
        deck_views(deck@) == movement_card_views(cards@),
        all_in_stock(deck@),
{
    let ghost given = cards@;
    let mut cards = cards;
    let mut deck: Vec<DeckCard> = Vec::new();
    while cards.len() > 0
        invariant
            deck@.len() + cards@.len() == given.len(),
            forall|j: int| 0 <= j < deck@.len() ==> (#[trigger] deck@[j]).card == given[j],
            forall|j: int| 0 <= j < cards@.len() ==> #[trigger] cards@[j] == given[deck@.len() + j],
            all_in_stock(deck@),
        decreases cards@.len(),
    {
        let card = cards.remove(0);
        deck.push(DeckCard { card, place: Place::Stock });
    }
    assert(deck_views(deck@) =~= movement_card_views(given));
    deck
}

/// Shuffles the movement cards into a stock with the given picks: each pick
/// takes one card out of what is left of the generated cards. `None` where
/// there are not as many picks as cards, or where a pick names no card of
/// what is left.
pub fn setup_movement_cards_with(picks: &Vec<usize>) -> (deck: Option<Vec<DeckCard>>)
    ensures
        deck is Some <==> picks@.len() == DECK_SIZE && picks_fit(
            DECK_SIZE as int,
            picks_of(picks@),
        ),
        deck matches Some(cards) ==> deck_views(cards@) == sampled(
            movement_card_pool(),
            picks_of(picks@),
        ) && cards@.len() == DECK_SIZE && all_in_stock(cards@),
{
    if picks.len() != DECK_SIZE {
        return None;
    }
    let mut pool = generate_cards();
    let ghost start = pool@;
    match sample(&mut pool, picks) {
        Some(chosen) => {
            proof {
                lemma_sample_lengths(start, picks_of(picks@));
                lemma_sample_of_mapped(start, picks_of(picks@), |c: MovementCard| c@);
                assert(movement_card_views(start) =~= start.map_values(|c: MovementCard| c@));
                assert(movement_card_views(chosen@) =~= chosen@.map_values(
                    |c: MovementCard| c@,
                ));
            }
            Some(stack(chosen))
        },
        None => None,
    }
}

/// Shuffles the movement cards into a stock at random, without replacement.
/// The second component lists the picks that were made.
pub fn setup_movement_cards() -> (out: (Vec<DeckCard>, Vec<usize>))
    ensures
        out.1@.len() == DECK_SIZE,
        picks_fit(DECK_SIZE as int, picks_of(out.1@)),
        deck_views(out.0@) == sampled(movement_card_pool(), picks_of(out.1@)),
        out.0@.len() == DECK_SIZE,
        all_in_stock(out.0@),
{
    let mut pool = generate_cards();
    let ghost start = pool@;
    let (chosen, picks) = sample_at_random(&mut pool, DECK_SIZE);
    proof {
        lemma_sample_lengths(start, picks_of(picks@));
        lemma_sample_of_mapped(start, picks_of(picks@), |c: MovementCard| c@);
        assert(movement_card_views(start) =~= start.map_values(|c: MovementCard| c@));
        assert(movement_card_views(chosen@) =~= chosen@.map_values(|c: MovementCard| c@));
    }
    (stack(chosen), picks)
}

/// The card with another value.
pub open spec fn revalued(card: DeckCard, value: int) -> DeckCard {
    DeckCard {
        card: MovementCard { name: card.card.name, value: value as u32 },
        place: card.place,
    }
}

/// Whether no card lies in the hand.
pub open spec fn hand_is_empty(deck: Seq<DeckCard>) -> bool {
    forall|j: int| 0 <= j < deck.len() ==> (#[trigger] deck[j]).place != Place::Hand
}

/// Whether the card at `i` is the first card of the hand, in the order of the
/// deck, that has the highest value of the hand.
pub open spec fn is_first_highest(deck: Seq<DeckCard>, i: int) -> bool {
    &&& 0 <= i < deck.len()
    &&& deck[i].place == Place::Hand
    &&& forall|j: int|
        0 <= j < deck.len() && (#[trigger] deck[j]).place == Place::Hand ==> deck[j].card.value
            <= deck[i].card.value
    &&& forall|j: int|
        0 <= j < i && (#[trigger] deck[j]).place == Place::Hand ==> deck[j].card.value
            < deck[i].card.value
}

/// Whether the card at `i` is the first card of the hand, in the order of the
/// deck, that has the lowest value of the hand.
pub open spec fn is_first_lowest(deck: Seq<DeckCard>, i: int) -> bool {
    &&& 0 <= i < deck.len()
    &&& deck[i].place == Place::Hand
    &&& forall|j: int|
        0 <= j < deck.len() && (#[trigger] deck[j]).place == Place::Hand ==> deck[j].card.value
            >= deck[i].card.value
    &&& forall|j: int|
        0 <= j < i && (#[trigger] deck[j]).place == Place::Hand ==> deck[j].card.value
            > deck[i].card.value
}

/// The place in the deck of the first card of the hand with the highest value.
pub open spec fn highest_in_hand(deck: Seq<DeckCard>) -> int {
    choose|i: int| is_first_highest(deck, i)
}

/// The place in the deck of the first card of the hand with the lowest value.
pub open spec fn lowest_in_hand(deck: Seq<DeckCard>) -> int {
    choose|i: int| is_first_lowest(deck, i)
}

/// Only one card is the first with the highest value.
pub proof fn lemma_first_highest_is_unique(deck: Seq<DeckCard>, i: int, k: int)
    requires
        is_first_highest(deck, i),
        is_first_highest(deck, k),
    ensures
        i == k,
        highest_in_hand(deck) == i,
        !hand_is_empty(deck),
{
    if i < k {
        assert(deck[i].card.value < deck[k].card.value);
    } else if k < i {
        assert(deck[k].card.value < deck[i].card.value);
    }
    let c = highest_in_hand(deck);
    if c < i {
        assert(deck[c].card.value < deck[i].card.value);
    } else if i < c {
        assert(deck[i].card.value < deck[c].card.value);
    }
}

/// Only one card is the first with the lowest value.
pub proof fn lemma_first_lowest_is_unique(deck: Seq<DeckCard>, i: int, k: int)
    requires
        is_first_lowest(deck, i),
        is_first_lowest(deck, k),
    ensures
        i == k,
        lowest_in_hand(deck) == i,
        !hand_is_empty(deck),
{
    if i < k {
        assert(deck[i].card.value > deck[k].card.value);
    } else if k < i {
        assert(deck[k].card.value > deck[i].card.value);
    }
    let c = lowest_in_hand(deck);
    if c < i {
        assert(deck[c].card.value > deck[i].card.value);
    } else if i < c {
        assert(deck[i].card.value > deck[c].card.value);
    }
}

/// Finds the first card of the hand with the highest value.
pub fn find_highest(deck: &Vec<DeckCard>) -> (found: Option<usize>)
    ensures
        match found {
            Some(i) => is_first_highest(deck@, i as int),
            None => hand_is_empty(deck@),
        },
{
    let mut found: Option<usize> = None;
    let mut i: usize = 0;
    while i < deck.len()
        invariant
            i <= deck@.len(),
            match found {
                Some(b) => is_first_highest(deck@.take(i as int), b as int),
                None => hand_is_empty(deck@.take(i as int)),
            },
        decreases deck@.len() - i,
    {
        let better = match found {
            Some(b) => deck[b].card.value < deck[i].card.value,
            None => true,
        };
        if deck[i].place == Place::Hand && better {
            found = Some(i);
        }
        proof {
            let seen = deck@.take(i as int);
            let now = deck@.take(i + 1);
            assert forall|j: int| 0 <= j < seen.len() implies #[trigger] now[j] == seen[j] by {}
            assert(now[i as int] == deck@[i as int]);
            match found {
                Some(b) => {
                    assert forall|j: int|
                        0 <= j < now.len() && (#[trigger] now[j]).place
                            == Place::Hand implies now[j].card.value <= now[b as int].card.value by {
                        if j < i {
                            assert(seen[j].place == Place::Hand);
                        }
                    }
                    assert forall|j: int|
                        0 <= j < b && (#[trigger] now[j]).place
                            == Place::Hand implies now[j].card.value < now[b as int].card.value by {
                        assert(seen[j].place == Place::Hand);
                    }
                },
                None => {
                    assert forall|j: int| 0 <= j < now.len() implies (#[trigger] now[j]).place
                        != Place::Hand by {
                        if j < i {
                            assert(seen[j].place != Place::Hand);
                        }
                    }
                },
            }
        }
        i += 1;
    }
    proof {
        assert(deck@.take(i as int) =~= deck@);
    }
    found
}

/// Finds the first card of the hand with the lowest value.
pub fn find_lowest(deck: &Vec<DeckCard>) -> (found: Option<usize>)
    ensures
        match found {
            Some(i) => is_first_lowest(deck@, i as int),
            None => hand_is_empty(deck@),
        },
{
    let mut found: Option<usize> = None;
    let mut i: usize = 0;
    while i < deck.len()
        invariant
            i <= deck@.len(),
            match found {
                Some(b) => is_first_lowest(deck@.take(i as int), b as int),
                None => hand_is_empty(deck@.take(i as int)),
            },
        decreases deck@.len() - i,
    {
        let better = match found {
            Some(b) => deck[b].card.value > deck[i].card.value,
            None => true,
        };
        if deck[i].place == Place::Hand && better {
            found = Some(i);
        }
        proof {
            let seen = deck@.take(i as int);
            let now = deck@.take(i + 1);
            assert forall|j: int| 0 <= j < seen.len() implies #[trigger] now[j] == seen[j] by {}
            assert(now[i as int] == deck@[i as int]);
            match found {
                Some(b) => {
                    assert forall|j: int|
                        0 <= j < now.len() && (#[trigger] now[j]).place
                            == Place::Hand implies now[j].card.value >= now[b as int].card.value by {
                        if j < i {
                            assert(seen[j].place == Place::Hand);
                        }
                    }
                    assert forall|j: int|
                        0 <= j < b && (#[trigger] now[j]).place
                            == Place::Hand implies now[j].card.value > now[b as int].card.value by {
                        assert(seen[j].place == Place::Hand);
                    }
                },
                None => {
                    assert forall|j: int| 0 <= j < now.len() implies (#[trigger] now[j]).place
                        != Place::Hand by {
                        if j < i {
                            assert(seen[j].place != Place::Hand);
                        }
                    }
                },
            }
        }
        i += 1;
    }
    proof {
        assert(deck@.take(i as int) =~= deck@);
    }
    found
}

/// The deck after `delta` was taken off the first card of the hand with the
/// highest value. The value is not clamped: it is kept modulo 2^32. With no
/// card in the hand nothing changes.
pub open spec fn after_subtract(deck: Seq<DeckCard>, delta: int) -> Seq<DeckCard> {
    if hand_is_empty(deck) {
        deck
    } else {
        let i = highest_in_hand(deck);
        deck.update(i, revalued(deck[i], wrap_u32(deck[i].card.value - delta)))
    }
}

/// The deck after the first card of the hand with the lowest value was
/// multiplied by `factor`, modulo 2^32. With no card in the hand nothing
/// changes.
pub open spec fn after_multiply(deck: Seq<DeckCard>, factor: int) -> Seq<DeckCard> {
    if hand_is_empty(deck) {
        deck
    } else {
        let i = lowest_in_hand(deck);
        deck.update(i, revalued(deck[i], wrap_u32(deck[i].card.value * factor)))
    }
}

/// The deck after every card of the hand was given the value `value`, modulo
/// 2^32.
pub open spec fn after_overwrite(deck: Seq<DeckCard>, value: int) -> Seq<DeckCard> {
    Seq::new(
        deck.len(),
        |i: int|
            if deck[i].place == Place::Hand {
                revalued(deck[i], wrap_u32(value))
            } else {
                deck[i]
            },
    )
}

/// Takes `delta` off the first card of the hand with the highest value, and
/// tells which card that was.
pub fn subtract_from_highest(deck: &mut Vec<DeckCard>, delta: i32) -> (changed: Option<usize>)
    ensures
        final(deck)@ == after_subtract(old(deck)@, delta as int),
        match changed {
            Some(i) => is_first_highest(old(deck)@, i as int) && highest_in_hand(old(deck)@) == i,
            None => hand_is_empty(old(deck)@),
        },
{
    let found = find_highest(deck);
    match found {
        Some(i) => {
            proof {
                lemma_first_highest_is_unique(deck@, i as int, i as int);
            }
            let value = lowered(deck[i].card.value, delta);
            deck[i].card.value = value;
            assert(deck@ =~= after_subtract(old(deck)@, delta as int));
        },
        None => {},
    }
    found
}

/// Multiplies the first card of the hand with the lowest value by `factor`,
/// and tells which card that was.
pub fn multiply_lowest(deck: &mut Vec<DeckCard>, factor: i32) -> (changed: Option<usize>)
    ensures
        final(deck)@ == after_multiply(old(deck)@, factor as int),
        match changed {
            Some(i) => is_first_lowest(old(deck)@, i as int) && lowest_in_hand(old(deck)@) == i,
            None => hand_is_empty(old(deck)@),
        },
{
    let found = find_lowest(deck);
    match found {
        Some(i) => {
            proof {
                lemma_first_lowest_is_unique(deck@, i as int, i as int);
            }
            let value = multiplied(deck[i].card.value, factor);
            deck[i].card.value = value;
            assert(deck@ =~= after_multiply(old(deck)@, factor as int));
        },
        None => {},
    }
    found
}

/// Gives every card of the hand the value `value`.
pub fn overwrite_hand(deck: &mut Vec<DeckCard>, value: i32)
    ensures
        final(deck)@ == after_overwrite(old(deck)@, value as int),
{
    let stored = to_unsigned(value);
    let mut i: usize = 0;
    while i < deck.len()
        invariant
            i <= deck@.len() == old(deck)@.len(),
            stored == wrap_u32(value as int),
            forall|j: int|
                0 <= j < i ==> #[trigger] deck@[j] == after_overwrite(old(deck)@, value as int)[j],
            forall|j: int| i <= j < deck@.len() ==> #[trigger] deck@[j] == old(deck)@[j],
        decreases deck@.len() - i,
    {
        if deck[i].place == Place::Hand {
            deck[i].card.value = stored;
        }
        i += 1;
    }
    assert(deck@ =~= after_overwrite(old(deck)@, value as int));
}

/// Overwriting the hand twice leaves what the second overwrite alone leaves:
/// the last write wins.
pub proof fn overwrite_is_last_write_wins(deck: Seq<DeckCard>, first: int, second: int)
    ensures
        after_overwrite(after_overwrite(deck, first), second) == after_overwrite(deck, second),
        forall|i: int|
            0 <= i < deck.len() && (#[trigger] deck[i]).place == Place::Hand ==> after_overwrite(
                after_overwrite(deck, first),
                second,
            )[i].card.value == wrap_u32(second),
{
    assert(after_overwrite(after_overwrite(deck, first), second) =~= after_overwrite(
        deck,
        second,
    ));
}

/// The number of cards among `cards` that are worth `value`.
pub open spec fn copies_worth(cards: Seq<MovementCardView>, value: u32) -> nat
    decreases cards.len(),
{
    if cards.len() == 0 {
        0
    } else {
        copies_worth(cards.drop_last(), value) + if cards.last().value == value {
            1nat
        } else {
            0nat
        }
    }
}

/// The generated cards hold five cards worth one point, four worth two,
/// three worth three, two worth four and one worth five, and no others.
pub proof fn movement_cards_are_weighted()
    ensures
        movement_card_pool().len() == DECK_SIZE,
        copies_worth(movement_card_pool(), 1) == 5,
        copies_worth(movement_card_pool(), 2) == 4,
        copies_worth(movement_card_pool(), 3) == 3,
        copies_worth(movement_card_pool(), 4) == 2,
        copies_worth(movement_card_pool(), 5) == 1,
        forall|i: int|
            0 <= i < movement_card_pool().len() ==> 1 <= (#[trigger] movement_card_pool()[i]).value
                <= 5,
{
    let pool = movement_card_pool();
    assert forall|value: u32, n: int| 0 <= n <= 15 implies #[trigger] copies_worth(
        pool.take(n),
        value,
    ) == copies_in_front(n, value) by {
        lemma_copies_in_front(n, value);
    }
    assert(pool.take(15) =~= pool);
}

/// The number of cards worth `value` among the first `n` generated cards.
spec fn copies_in_front(n: int, value: u32) -> int {
    if value == 1 {
        if n < 5 {
            n
        } else {
            5
        }
    } else if value == 2 {
        if n < 5 {
            0
        } else if n < 9 {
            n - 5
        } else {
            4
        }
    } else if value == 3 {
        if n < 9 {
            0
        } else if n < 12 {
            n - 9
        } else {
            3
        }
    } else if value == 4 {
        if n < 12 {
            0
        } else if n < 14 {
            n - 12
        } else {
            2
        }
    } else if value == 5 {
        if n < 14 {
            0
        } else {
            n - 14
        }
    } else {
        0
    }
}

proof fn lemma_copies_in_front(n: int, value: u32)
    requires
        0 <= n <= 15,
    ensures
        copies_worth(movement_card_pool().take(n), value) == copies_in_front(n, value),
    decreases n,
{
    let pool = movement_card_pool();
    if n > 0 {
        lemma_copies_in_front(n - 1, value);
        assert(pool.take(n).drop_last() =~= pool.take(n - 1));
        assert(pool.take(n).last() == pool[n - 1]);
    }
}

/// A card that lies discarded stays discarded, and keeps its value, whatever
/// is drawn, played or done to the hand.
pub proof fn discarded_cards_stay(deck: Seq<DeckCard>, i: int, count: int, value: int)
    requires
        0 <= i < deck.len(),
        deck[i].place == Place::Discarded,
    ensures
        after_draw(deck, count)[i] == deck[i],
        after_discard(deck)[i] == deck[i],
        after_draw_request(deck, count)[i] == deck[i],
        after_subtract(deck, value)[i] == deck[i],
        after_multiply(deck, value)[i] == deck[i],
        after_overwrite(deck, value)[i] == deck[i],
{
    if !hand_is_empty(deck) {
        lemma_first_highest_exists(deck);
        lemma_first_lowest_exists(deck);
    }
}

/// Where a card lies in the hand, one of them is the first with the highest
/// value.
pub proof fn lemma_first_highest_exists(deck: Seq<DeckCard>)
    requires
        !hand_is_empty(deck),
    ensures
        is_first_highest(deck, highest_in_hand(deck)),
{
    assert(deck.take(deck.len() as int) =~= deck);
    lemma_first_highest_in_front(deck, deck.len() as int);
}

proof fn lemma_first_highest_in_front(deck: Seq<DeckCard>, n: int)
    requires
        0 <= n <= deck.len(),
        !hand_is_empty(deck.take(n)),
    ensures
        exists|i: int| is_first_highest(deck.take(n), i),
    decreases n,
{
    let now = deck.take(n);
    let seen = deck.take(n - 1);
    assert(n > 0);
    assert forall|j: int| 0 <= j < seen.len() implies #[trigger] now[j] == seen[j] by {}
    if hand_is_empty(seen) {
        assert(now[n - 1].place == Place::Hand) by {
            let j = choose|j: int| 0 <= j < now.len() && (#[trigger] now[j]).place == Place::Hand;
            if j < n - 1 {
                assert(seen[j].place != Place::Hand);
            }
        }
        assert forall|j: int| 0 <= j < n - 1 implies (#[trigger] now[j]).place != Place::Hand by {
            assert(seen[j].place != Place::Hand);
        }
        assert(is_first_highest(now, n - 1));
    } else {
        lemma_first_highest_in_front(deck, n - 1);
        let b = choose|b: int| is_first_highest(seen, b);
        if now[n - 1].place == Place::Hand && now[b].card.value < now[n - 1].card.value {
            assert forall|j: int|
                0 <= j < now.len() && (#[trigger] now[j]).place
                    == Place::Hand implies now[j].card.value <= now[n - 1].card.value by {
                if j < n - 1 {
                    assert(seen[j].place == Place::Hand);
                }
            }
            assert forall|j: int|
                0 <= j < n - 1 && (#[trigger] now[j]).place
                    == Place::Hand implies now[j].card.value < now[n - 1].card.value by {
                assert(seen[j].place == Place::Hand);
            }
            assert(is_first_highest(now, n - 1));
        } else {
            assert forall|j: int|
                0 <= j < now.len() && (#[trigger] now[j]).place
                    == Place::Hand implies now[j].card.value <= now[b].card.value by {
                if j < n - 1 {
                    assert(seen[j].place == Place::Hand);
                }
            }
            assert forall|j: int|
                0 <= j < b && (#[trigger] now[j]).place
                    == Place::Hand implies now[j].card.value < now[b].card.value by {
                assert(seen[j].place == Place::Hand);
            }
            assert(is_first_highest(now, b));
        }
    }
}

/// Where a card lies in the hand, one of them is the first with the lowest
/// value.
pub proof fn lemma_first_lowest_exists(deck: Seq<DeckCard>)
    requires
        !hand_is_empty(deck),
    ensures
        is_first_lowest(deck, lowest_in_hand(deck)),
{
    assert(deck.take(deck.len() as int) =~= deck);
    lemma_first_lowest_in_front(deck, deck.len() as int);
}

proof fn lemma_first_lowest_in_front(deck: Seq<DeckCard>, n: int)
    requires
        0 <= n <= deck.len(),
        !hand_is_empty(deck.take(n)),
    ensures
        exists|i: int| is_first_lowest(deck.take(n), i),
    decreases n,
{
    let now = deck.take(n);
    let seen = deck.take(n - 1);
    assert(n > 0);
    assert forall|j: int| 0 <= j < seen.len() implies #[trigger] now[j] == seen[j] by {}
    if hand_is_empty(seen) {
        assert(now[n - 1].place == Place::Hand) by {
            let j = choose|j: int| 0 <= j < now.len() && (#[trigger] now[j]).place == Place::Hand;
            if j < n - 1 {
                assert(seen[j].place != Place::Hand);
            }
        }
        assert forall|j: int| 0 <= j < n - 1 implies (#[trigger] now[j]).place != Place::Hand by {
            assert(seen[j].place != Place::Hand);
        }
        assert(is_first_lowest(now, n - 1));
    } else {
        lemma_first_lowest_in_front(deck, n - 1);
        let b = choose|b: int| is_first_lowest(seen, b);
        if now[n - 1].place == Place::Hand && now[b].card.value > now[n - 1].card.value {
            assert forall|j: int|
                0 <= j < now.len() && (#[trigger] now[j]).place
                    == Place::Hand implies now[j].card.value >= now[n - 1].card.value by {
                if j < n - 1 {
                    assert(seen[j].place == Place::Hand);
                }
            }
            assert forall|j: int|
                0 <= j < n - 1 && (#[trigger] now[j]).place
                    == Place::Hand implies now[j].card.value > now[n - 1].card.value by {
                assert(seen[j].place == Place::Hand);
            }
            assert(is_first_lowest(now, n - 1));
        } else {
            assert forall|j: int|
                0 <= j < now.len() && (#[trigger] now[j]).place
                    == Place::Hand implies now[j].card.value >= now[b].card.value by {
                if j < n - 1 {
                    assert(seen[j].place == Place::Hand);
                }
            }
            assert forall|j: int|
                0 <= j < b && (#[trigger] now[j]).place
                    == Place::Hand implies now[j].card.value > now[b].card.value by {
                assert(seen[j].place == Place::Hand);
            }
            assert(is_first_lowest(now, b));
        }
    }
}

/// Once the hand was played or put away, no card lies in the hand.
pub proof fn hand_is_empty_after_discard(deck: Seq<DeckCard>)
    ensures
        hand_is_empty(after_discard(deck)),
{
}

} // verus!
