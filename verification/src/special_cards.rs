//! Special cards: one-shot cards that change the counters, the hand or the
//! current tile when they are played.

use crate::ledger::{to_unsigned, wrap_u32};
use crate::movement::{
    after_multiply, after_overwrite, after_subtract, multiply_lowest, overwrite_hand,
    subtract_from_highest, DeckCard, DrawCardEvent, MovementCardsDrawnEvent,
    MovementPointsUpdateEvent,
};
use crate::sampling::{
    lemma_sample_lengths, lemma_sample_of_mapped, picks_fit, picks_of, sample, sample_at_random,
    sampled,
};
use crate::tiles::{
    after_cost_raised, after_cost_set, after_erase, erase_current, raise_current_cost,
    set_current_cost, tile_views, Tile, TileView,
};
use crate::turns::TurnsUpdateEvent;
use vstd::prelude::*;

verus! {

/// What a special card does when it is played.
#[derive(Clone, Copy, Debug, PartialEq, Eq, Structural)]
pub enum CardType {
    DrawMovementCard,
    MovementPointsUpdate,
    TurnUpdate,
    MovementPointsSubHighest,
    CurrentTileCostDirectChange,
    CurrentTileCostIndirectChange,
    MovementPointsMultiplyLeastCard,
    MovementPointsReductionAllCards,
    Erase,
}

/// A special card.
#[derive(Clone, Debug, PartialEq, Eq)]
pub struct SpecialCard {
    pub name: String,
    pub tag: String,
    pub description: String,
    pub value: i32,
    pub card_type: CardType,
}

impl Default for CardType {
    fn default() -> (kind: CardType)
        ensures
            kind == CardType::DrawMovementCard,
    {
        CardType::DrawMovementCard
    }
}

impl Default for SpecialCard {
    /// A card without texts that draws nothing.
    fn default() -> (card: SpecialCard)
        ensures
            card@ == (SpecialCardView {
                name: Seq::<char>::empty(),
                tag: Seq::<char>::empty(),
                description: Seq::<char>::empty(),
                value: 0,
                card_type: CardType::DrawMovementCard,
            }),
    {
        SpecialCard {
            name: String::new(),
            tag: String::new(),
            description: String::new(),
            value: 0,
            card_type: CardType::DrawMovementCard,
        }
    }
}

/// A special card as a plain value, its texts as sequences of characters.
pub struct SpecialCardView {
    pub name: Seq<char>,
    pub tag: Seq<char>,
    pub description: Seq<char>,
    pub value: i32,
    pub card_type: CardType,
}

impl View for SpecialCard {
    type V = SpecialCardView;

    open spec fn view(&self) -> SpecialCardView {
        SpecialCardView {
            name: self.name@,
            tag: self.tag@,
            description: self.description@,
            value: self.value,
            card_type: self.card_type,
        }
    }
}

/// Where a special card of the offer stands.
#[derive(Clone, Copy, Debug, PartialEq, Eq, Structural)]
pub enum OfferStatus {
    /// On the table, face down, not to be chosen now.
    Covered,
    /// On the table and open to the player's choice.
    Selectable,
    /// Played and put away for good.
    Discarded,
}

/// A special card on the table.
#[derive(Clone, Debug, PartialEq, Eq)]
pub struct OfferedCard {
    pub card: SpecialCard,
    pub status: OfferStatus,
}

/// The cards of an offer, as plain values.
pub open spec fn offered_views(offer: Seq<OfferedCard>) -> Seq<SpecialCardView> {
    offer.map_values(|c: OfferedCard| c.card@)
}

/// The views of a sequence of special cards.
pub open spec fn special_card_views(cards: Seq<SpecialCard>) -> Seq<SpecialCardView> {
    cards.map_values(|c: SpecialCard| c@)
}

/// The number of special cards in the catalogue.
pub const CATALOGUE_SIZE: usize = 14;

/// The number of special cards that are laid on the table for one game.
pub const CARDS_TO_DRAW: usize = 8;

/// A card marked as a hindrance.
pub open spec fn naughty() -> Seq<char> {
    "<Naughty>"@
}

/// A card marked as a help.
pub open spec fn nice() -> Seq<char> {
    "<Nice>"@
}

/// A card that may turn out either way.
pub open spec fn naughty_or_nice() -> Seq<char> {
    "<Naughty or Nice>"@
}

/// The catalogue of special cards, in the order in which it is generated.
pub open spec fn special_card_catalogue() -> Seq<SpecialCardView> {
    seq![
        SpecialCardView {
            name: "Scathe"@,
            tag: naughty(),
            description: "Take off 2 movement points from movement card with the highest movement points in your hand"@,
            value: 2,
            card_type: CardType::MovementPointsSubHighest,
        },
        SpecialCardView {
            name: "Motivity"@,
            tag: nice(),
            description: "Double the movement points of the card with the least points in your hand"@,
            value: 2,
            card_type: CardType::MovementPointsMultiplyLeastCard,
        },
        SpecialCardView {
            name: "Lucky Draw"@,
            tag: nice(),
            description: "Draw another movement card"@,
            value: 1,
            card_type: CardType::DrawMovementCard,
        },
        SpecialCardView {
            name: "Aw Snap!"@,
            tag: naughty(),
            description: "Lose 1 movement point"@,
            value: (-1) as i32,
            card_type: CardType::MovementPointsUpdate,
        },
        SpecialCardView {
            name: "Overdraw"@,
            tag: naughty(),
            description: "Lose 2 movement points"@,
            value: (-2) as i32,
            card_type: CardType::MovementPointsUpdate,
        },
        SpecialCardView {
            name: "Tip the scales"@,
            tag: nice(),
            description: "Add 2 movement points"@,
            value: 2,
            card_type: CardType::MovementPointsUpdate,
        },
        SpecialCardView {
            name: "Paid For"@,
            tag: nice(),
            description: "Change the cost of the current tile to 0"@,
            value: 0,
            card_type: CardType::CurrentTileCostDirectChange,
        },
        SpecialCardView {
            name: "Mutator"@,
            tag: naughty_or_nice(),
            description: "Randomly mutate the cost of the current tile"@,
            value: (-1) as i32,
            card_type: CardType::CurrentTileCostDirectChange,
        },
        SpecialCardView {
            name: "Arduous"@,
            tag: naughty(),
            description: "Change the cost of the current tile to 10"@,
            value: 10,
            card_type: CardType::CurrentTileCostDirectChange,
        },
        SpecialCardView {
            name: "Twice Lucky?"@,
            tag: naughty_or_nice(),
            description: "Discard current hand and draw new cards"@,
            value: 2,
            card_type: CardType::DrawMovementCard,
        },
        SpecialCardView {
            name: "Torpid"@,
            tag: naughty(),
            description: "Reduce all movement points of the cards in your hand to 1"@,
            value: 1,
            card_type: CardType::MovementPointsReductionAllCards,
        },
        SpecialCardView {
            name: "Second Chance"@,
            tag: nice(),
            description: "Add a turn"@,
            value: 1,
            card_type: CardType::TurnUpdate,
        },
        SpecialCardView {
            name: "Inflation"@,
            tag: naughty(),
            description: "Increase the current tile cost by 1"@,
            value: 1,
            card_type: CardType::CurrentTileCostIndirectChange,
        },
        SpecialCardView {
            name: "Erase"@,
            tag: nice(),
            description: "Erase the cost and effects of the current tile"@,
            value: 0,
            card_type: CardType::Erase,
        },
    ]
}

fn special_card(name: &str, tag: &str, description: &str, value: i32, card_type: CardType) -> (c:
    SpecialCard)
    ensures
        c@ == (SpecialCardView {
            name: name@,
            tag: tag@,
            description: description@,
            value,
            card_type,
        }),
{
    SpecialCard {
        name: name.to_owned(),
        tag: tag.to_owned(),
        description: description.to_owned(),
        value,
        card_type,
    }
}

/// The catalogue of special cards.
pub fn generate_cards() -> (cards: Vec<SpecialCard>)
    ensures
        special_card_views(cards@) == special_card_catalogue(),
        cards@.len() == CATALOGUE_SIZE,
{
    let mut cards: Vec<SpecialCard> = Vec::with_capacity(CATALOGUE_SIZE);
    cards.push(
        special_card(
            "Scathe",
            "<Naughty>",
            "Take off 2 movement points from movement card with the highest movement points in your hand",
            2,
            CardType::MovementPointsSubHighest,
        ),
    );
    cards.push(
        special_card(
            "Motivity",
            "<Nice>",
            "Double the movement points of the card with the least points in your hand",
            2,
            CardType::MovementPointsMultiplyLeastCard,
        ),
    );
    cards.push(
        special_card(
            "Lucky Draw",
            "<Nice>",
            "Draw another movement card",
            1,
            CardType::DrawMovementCard,
        ),
    );
    cards.push(
        special_card(
            "Aw Snap!",
            "<Naughty>",
            "Lose 1 movement point",
            -1,
            CardType::MovementPointsUpdate,
        ),
    );
    cards.push(
        special_card(
            "Overdraw",
            "<Naughty>",
            "Lose 2 movement points",
            -2,
            CardType::MovementPointsUpdate,
        ),
    );
    cards.push(
        special_card(
            "Tip the scales",
            "<Nice>",
            "Add 2 movement points",
            2,
            CardType::MovementPointsUpdate,
        ),
    );
    cards.push(
        special_card(
            "Paid For",
            "<Nice>",
            "Change the cost of the current tile to 0",
            0,
            CardType::CurrentTileCostDirectChange,
        ),
    );
    cards.push(
        special_card(
            "Mutator",
            "<Naughty or Nice>",
            "Randomly mutate the cost of the current tile",
            -1,
            CardType::CurrentTileCostDirectChange,
        ),
    );
    cards.push(
        special_card(
            "Arduous",
            "<Naughty>",
            "Change the cost of the current tile to 10",
            10,
            CardType::CurrentTileCostDirectChange,
        ),
    );
    cards.push(
        special_card(
            "Twice Lucky?",
            "<Naughty or Nice>",
            "Discard current hand and draw new cards",
            2,
            CardType::DrawMovementCard,
        ),
    );
    cards.push(
        special_card(
            "Torpid",
            "<Naughty>",
            "Reduce all movement points of the cards in your hand to 1",
            1,
            CardType::MovementPointsReductionAllCards,
        ),
    );
    cards.push(
        special_card("Second Chance", "<Nice>", "Add a turn", 1, CardType::TurnUpdate),
    );
    cards.push(
        special_card(
            "Inflation",
            "<Naughty>",
            "Increase the current tile cost by 1",
            1,
            CardType::CurrentTileCostIndirectChange,
        ),
    );
    cards.push(
        special_card(
            "Erase",
            "<Nice>",
            "Erase the cost and effects of the current tile",
            0,
            CardType::Erase,
        ),
    );
    assert(special_card_views(cards@) =~= special_card_catalogue());
    cards
}

/// Whether every card of the offer lies covered.
pub open spec fn all_covered(offer: Seq<OfferedCard>) -> bool {
    forall|k: int| 0 <= k < offer.len() ==> (#[trigger] offer[k]).status == OfferStatus::Covered
}

/// Lays the sampled cards on the table, face down.
fn lay_out(cards: Vec<SpecialCard>) -> (offer: Vec<OfferedCard>)
    ensures
        offered_views(offer@) == special_card_views(cards@),
        all_covered(offer@),
{
    let ghost given = cards@;
    let mut cards = cards;
    let mut offer: Vec<OfferedCard> = Vec::new();
    while cards.len() > 0
        invariant
            offer@.len() + cards@.len() == given.len(),
            forall|j: int| 0 <= j < offer@.len() ==> (#[trigger] offer@[j]).card == given[j],
            forall|j: int|
                0 <= j < cards@.len() ==> #[trigger] cards@[j] == given[offer@.len() + j],
            all_covered(offer@),
        decreases cards@.len(),
    {
        let card = cards.remove(0);
        offer.push(OfferedCard { card, status: OfferStatus::Covered });
    }
    assert(offered_views(offer@) =~= special_card_views(given));
    offer
}

/// Lays out the offer of special cards with the given picks: each pick takes
/// one card out of what is left of the catalogue. `None` where there are not
/// as many picks as the table has places, or where a pick names no card of
/// what is left.
pub fn setup_special_cards_with(picks: &Vec<usize>) -> (offer: Option<Vec<OfferedCard>>)
    ensures
        offer is Some <==> picks@.len() == CARDS_TO_DRAW && picks_fit(
            CATALOGUE_SIZE as int,
            picks_of(picks@),
        ),
        offer matches Some(cards) ==> offered_views(cards@) == sampled(
            special_card_catalogue(),
            picks_of(picks@),
        ) && cards@.len() == CARDS_TO_DRAW && all_covered(cards@),
{
    if picks.len() != CARDS_TO_DRAW {
        return None;
    }
    let mut catalogue = generate_cards();
    let ghost start = catalogue@;
    match sample(&mut catalogue, picks) {
        Some(chosen) => {
            proof {
                lemma_sample_lengths(start, picks_of(picks@));
                lemma_sample_of_mapped(start, picks_of(picks@), |c: SpecialCard| c@);
                assert(special_card_views(start) =~= start.map_values(|c: SpecialCard| c@));
                assert(special_card_views(chosen@) =~= chosen@.map_values(|c: SpecialCard| c@));
            }
            Some(lay_out(chosen))
        },
        None => None,
    }
}

/// Lays out the offer of special cards at random, without replacement. The
/// cards that are left in the catalogue are dropped. The second component
/// lists the picks that were made.
pub fn setup_special_cards() -> (out: (Vec<OfferedCard>, Vec<usize>))
    ensures
        out.1@.len() == CARDS_TO_DRAW,
        picks_fit(CATALOGUE_SIZE as int, picks_of(out.1@)),
        offered_views(out.0@) == sampled(special_card_catalogue(), picks_of(out.1@)),
        out.0@.len() == CARDS_TO_DRAW,
        all_covered(out.0@),
{
    let mut catalogue = generate_cards();
    let ghost start = catalogue@;
    let (chosen, picks) = sample_at_random(&mut catalogue, CARDS_TO_DRAW);
    proof {
        lemma_sample_lengths(start, picks_of(picks@));
        lemma_sample_of_mapped(start, picks_of(picks@), |c: SpecialCard| c@);
        assert(special_card_views(start) =~= start.map_values(|c: SpecialCard| c@));
        assert(special_card_views(chosen@) =~= chosen@.map_values(|c: SpecialCard| c@));
    }
    (lay_out(chosen), picks)
}

/// The special cards on the table, and the one that the player has chosen
/// and not played yet.
#[derive(Clone, Debug, PartialEq, Eq)]
pub struct Offer {
    pub cards: Vec<OfferedCard>,
    pub selected: Option<usize>,
}

/// The message that the player has chosen the special card at this place on
/// the table.
#[derive(Clone, Copy, Debug, PartialEq, Eq, Structural)]
pub struct SpecialCardSelected(pub usize);

/// The message that the player has closed the chosen special card.
#[derive(Clone, Copy, Debug, PartialEq, Eq, Structural)]
pub struct SpecialCardSelectedBlockerClose;

/// The message that a special card has been played and put away.
#[derive(Clone, Copy, Debug, PartialEq, Eq, Structural)]
pub struct SpecialCardClosed;

/// What playing a special card asks of the rest of the game. The counters
/// are never written by a card: a card sends a message.
#[derive(Clone, Copy, Debug, PartialEq, Eq, Structural)]
pub enum CardSignal {
    Nothing,
    DrawCard(DrawCardEvent),
    MovementPoints(MovementPointsUpdateEvent),
    Turns(TurnsUpdateEvent),
}

/// The message that a card of the given kind and value sends. The value of a
/// card that draws is read as a number of cards, by its 32 bits.
pub open spec fn signal_of(effect: CardType, value: i32) -> CardSignal {
    match effect {
        CardType::DrawMovementCard => CardSignal::DrawCard(
            DrawCardEvent(wrap_u32(value as int) as u32),
        ),
        CardType::MovementPointsUpdate => CardSignal::MovementPoints(
            MovementPointsUpdateEvent(value),
        ),
        CardType::TurnUpdate => CardSignal::Turns(TurnsUpdateEvent(value)),
        _ => CardSignal::Nothing,
    }
}

/// The deck after a card of the given kind and value was played.
pub open spec fn deck_after(effect: CardType, value: i32, deck: Seq<DeckCard>) -> Seq<DeckCard> {
    match effect {
        CardType::MovementPointsSubHighest => after_subtract(deck, value as int),
        CardType::MovementPointsMultiplyLeastCard => after_multiply(deck, value as int),
        CardType::MovementPointsReductionAllCards => after_overwrite(deck, value as int),
        _ => deck,
    }
}

/// The tiles after a card of the given kind and value was played.
pub open spec fn tiles_after(effect: CardType, value: i32, tiles: Seq<TileView>) -> Seq<
    TileView,
> {
    match effect {
        CardType::CurrentTileCostDirectChange => after_cost_set(tiles, value as int),
        CardType::CurrentTileCostIndirectChange => after_cost_raised(tiles, value as int),
        CardType::Erase => after_erase(tiles, value as int),
        _ => tiles,
    }
}

/// Plays a card of the given kind and value against the hand and the current
/// tile, and returns the message that it sends. Every kind of card can be
/// played in every state: a card that finds no card in the hand, or no
/// current tile, changes nothing.
pub fn resolve(effect: CardType, value: i32, deck: &mut Vec<DeckCard>, tiles: &mut Vec<Tile>) -> (signal:
    CardSignal)
    ensures
        signal == signal_of(effect, value),
        final(deck)@ == deck_after(effect, value, old(deck)@),
        tile_views(final(tiles)@) == tiles_after(effect, value, tile_views(old(tiles)@)),
{
    match effect {
        CardType::DrawMovementCard => CardSignal::DrawCard(DrawCardEvent(to_unsigned(value))),
        CardType::MovementPointsUpdate => CardSignal::MovementPoints(
            MovementPointsUpdateEvent(value),
        ),
        CardType::TurnUpdate => CardSignal::Turns(TurnsUpdateEvent(value)),
        CardType::MovementPointsSubHighest => {
            subtract_from_highest(deck, value);
            CardSignal::Nothing
        },
        CardType::CurrentTileCostDirectChange => {
            set_current_cost(tiles, value);
            CardSignal::Nothing
        },
        CardType::CurrentTileCostIndirectChange => {
            raise_current_cost(tiles, value);
            CardSignal::Nothing
        },
        CardType::MovementPointsMultiplyLeastCard => {
            multiply_lowest(deck, value);
            CardSignal::Nothing
        },
        CardType::MovementPointsReductionAllCards => {
            overwrite_hand(deck, value);
            CardSignal::Nothing
        },
        CardType::Erase => {
            erase_current(tiles, value);
            CardSignal::Nothing
        },
    }
}

/// The offer after movement cards were drawn: every card that was not played
/// yet is open to the player's choice.
pub open spec fn after_opening(cards: Seq<OfferedCard>) -> Seq<OfferedCard> {
    Seq::new(
        cards.len(),
        |k: int|
            if cards[k].status == OfferStatus::Discarded {
                cards[k]
            } else {
                OfferedCard { card: cards[k].card, status: OfferStatus::Selectable }
            },
    )
}

/// The offer after the chosen card was played: that card is discarded, and
/// no other card is open to choice any more.
pub open spec fn after_closing(cards: Seq<OfferedCard>, selected: Option<usize>) -> Seq<
    OfferedCard,
> {
    Seq::new(
        cards.len(),
        |k: int|
            if selected == Some(k as usize) {
                OfferedCard { card: cards[k].card, status: OfferStatus::Discarded }
            } else if cards[k].status == OfferStatus::Selectable {
                OfferedCard { card: cards[k].card, status: OfferStatus::Covered }
            } else {
                cards[k]
            },
    )
}

/// The kind of the card that is played when the chosen card is closed. With
/// no card chosen, a card that draws nothing is played.
pub open spec fn played_effect(cards: Seq<OfferedCard>, selected: Option<usize>) -> CardType {
    match selected {
        Some(k) => cards[k as int].card.card_type,
        None => CardType::DrawMovementCard,
    }
}

/// The value of the card that is played when the chosen card is closed.
pub open spec fn played_value(cards: Seq<OfferedCard>, selected: Option<usize>) -> i32 {
    match selected {
        Some(k) => cards[k as int].card.value,
        None => 0,
    }
}

impl Offer {
    /// The chosen card, if there is one, lies on the table and was open to
    /// choice.
    pub open spec fn wf(&self) -> bool {
        match self.selected {
            Some(k) => k < self.cards@.len() && self.cards@[k as int].status
                == OfferStatus::Selectable,
            None => true,
        }
    }

    /// An offer of the given cards, none of them chosen.
    pub fn new(cards: Vec<OfferedCard>) -> (offer: Offer)
        ensures
            offer.cards == cards,
            offer.selected is None,
            offer.wf(),
    {
        Offer { cards, selected: None }
    }

    /// Whether the offer is well formed.
    pub fn is_valid(&self) -> (ok: bool)
        ensures
            ok == self.wf(),
    {
        match self.selected {
            Some(k) => k < self.cards.len() && self.cards[k].status == OfferStatus::Selectable,
            None => true,
        }
    }

    /// The special card that the player has chosen and not played yet.
    pub fn chosen(&self) -> (card: Option<&SpecialCard>)
        requires
            self.wf(),
        ensures
            match self.selected {
                Some(k) => card == Some(&self.cards@[k as int].card),
                None => card is None,
            },
    {
        match self.selected {
            Some(k) => Some(&self.cards[k].card),
            None => None,
        }
    }

    /// Whether the player may choose the card at `place` now.
    pub fn is_selectable(&self, place: usize) -> (ok: bool)
        ensures
            ok == (self.selected is None && place < self.cards@.len() && self.cards@[place as int].status
                == OfferStatus::Selectable),
    {
        self.selected.is_none() && place < self.cards.len() && self.cards[place].status
            == OfferStatus::Selectable
    }
}

/// Movement cards have been drawn: every special card that was not played
/// yet is opened to the player's choice.
pub fn on_movement_cards_drawn(offer: &mut Offer, event: MovementCardsDrawnEvent)
    requires
        old(offer).wf(),
    ensures
        final(offer).cards@ == after_opening(old(offer).cards@),
        final(offer).selected == old(offer).selected,
        final(offer).wf(),
{
    let mut k: usize = 0;
    while k < offer.cards.len()
        invariant
            k <= offer.cards@.len() == old(offer).cards@.len(),
            offer.selected == old(offer).selected,
            forall|j: int|
                0 <= j < k ==> #[trigger] offer.cards@[j] == after_opening(old(offer).cards@)[j],
            forall|j: int|
                k <= j < offer.cards@.len() ==> #[trigger] offer.cards@[j] == old(offer).cards@[j],
        decreases offer.cards@.len() - k,
    {
        if offer.cards[k].status != OfferStatus::Discarded {
            offer.cards[k].status = OfferStatus::Selectable;
        }
        k += 1;
    }
    assert(offer.cards@ =~= after_opening(old(offer).cards@));
}

/// The player has chosen a special card: it is turned over and waits to be
/// closed. Choosing a card that is not open to choice, or a second card, is
/// not allowed.
pub fn on_special_card_selected(offer: &mut Offer, event: SpecialCardSelected)
    requires
        old(offer).selected is None,
        event.0 < old(offer).cards@.len(),
        old(offer).cards@[event.0 as int].status == OfferStatus::Selectable,
    ensures
        final(offer).selected == Some(event.0),
        final(offer).cards == old(offer).cards,
        final(offer).wf(),
{
    offer.selected = Some(event.0);
}

/// The player has closed the chosen special card: the card is played against
/// the hand and the current tile and discarded, and no special card is open
/// to choice any more. The first component is the message that the card
/// sends.
pub fn selected_special_card_close(
    offer: &mut Offer,
    deck: &mut Vec<DeckCard>,
    tiles: &mut Vec<Tile>,
    event: SpecialCardSelectedBlockerClose,
) -> (out: (CardSignal, SpecialCardClosed))
    requires
        old(offer).wf(),
    ensures
        final(offer).selected is None,
        final(offer).cards@ == after_closing(old(offer).cards@, old(offer).selected),
        out.0 == signal_of(
            played_effect(old(offer).cards@, old(offer).selected),
            played_value(old(offer).cards@, old(offer).selected),
        ),
        final(deck)@ == deck_after(
            played_effect(old(offer).cards@, old(offer).selected),
            played_value(old(offer).cards@, old(offer).selected),
            old(deck)@,
        ),
        tile_views(final(tiles)@) == tiles_after(
            played_effect(old(offer).cards@, old(offer).selected),
            played_value(old(offer).cards@, old(offer).selected),
            tile_views(old(tiles)@),
        ),
        final(offer).wf(),
{
    let selected = offer.selected;
    let (effect, value) = match selected {
        Some(place) => (offer.cards[place].card.card_type, offer.cards[place].card.value),
        None => (CardType::DrawMovementCard, 0),
    };
    let mut k: usize = 0;
    while k < offer.cards.len()
        invariant
            k <= offer.cards@.len() == old(offer).cards@.len(),
            selected == old(offer).selected,
            offer.selected == old(offer).selected,
            forall|j: int|
                0 <= j < k ==> #[trigger] offer.cards@[j] == after_closing(
                    old(offer).cards@,
                    selected,
                )[j],
            forall|j: int|
                k <= j < offer.cards@.len() ==> #[trigger] offer.cards@[j] == old(offer).cards@[j],
        decreases offer.cards@.len() - k,
    {
        let chosen = match selected {
            Some(place) => place == k,
            None => false,
        };
        if chosen {
            offer.cards[k].status = OfferStatus::Discarded;
        } else if offer.cards[k].status == OfferStatus::Selectable {
            offer.cards[k].status = OfferStatus::Covered;
        }
        k += 1;
    }
    assert(offer.cards@ =~= after_closing(old(offer).cards@, selected));
    offer.selected = None;
    let signal = resolve(effect, value, deck, tiles);
    (signal, SpecialCardClosed)
}

/// A special card that was played stays discarded, whatever is opened or
/// closed afterwards.
pub proof fn played_cards_stay_discarded(
    cards: Seq<OfferedCard>,
    selected: Option<usize>,
    k: int,
)
    requires
        0 <= k < cards.len(),
        cards[k].status == OfferStatus::Discarded,
    ensures
        after_opening(cards)[k] == cards[k],
        after_closing(cards, selected)[k] == cards[k],
{
}

} // verus!
