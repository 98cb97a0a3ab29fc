//! The turn state machine: one game with its counters, board, movement cards
//! and special cards, moved from phase to phase by the player's actions.

use crate::game_state::{GameOver, GameState, GameStates};
use crate::ledger::{counter_after, lemma_total_of_one};
use crate::movement::{
    after_discard, after_draw, after_draw_request, hand_credits, on_draw_card,
    on_special_card_closed_event, on_tile_closed_event, setup_movement_cards,
    setup_movement_cards_with, update_movement_points, DeckCard, DrawCardEvent, MovementPoints,
    CARDS_TO_DRAW, DECK_SIZE,
};
use crate::sampling::{picks_fit, picks_of};
use crate::special_cards::{
    after_closing, after_opening, deck_after, on_movement_cards_drawn, on_special_card_selected,
    played_effect, played_value, selected_special_card_close, setup_special_cards,
    setup_special_cards_with, signal_of, tiles_after, CardSignal, Offer, OfferStatus,
    OfferedCard, SpecialCardSelected, SpecialCardSelectedBlockerClose, CATALOGUE_SIZE,
};
use crate::tiles::{
    after_entering, effect_of, get_neighbours, lemma_effects_keep_layout, neighbours_of,
    on_tile_selected,
    on_tile_setup_complete, on_turn_ended, setup_tiles, setup_tiles_with, tile_selected_close,
    tile_views, turn_outcome, Board, Tile, TileSelected, TileSelectedBlockerClose,
    TileSetupComplete, TileSignal, TileView, TurnOutcome, BOARD_SLOTS, POOL_SIZE, START_TILE,
};
use crate::turns::TurnsLeft;
use vstd::prelude::*;

verus! {

/// One game.
#[derive(Clone, Debug, PartialEq, Eq)]
pub struct Game {
    pub state: GameState,
    pub outcome: Option<GameOver>,
    pub movement_points: MovementPoints,
    pub turns_left: TurnsLeft,
    pub board: Board,
    pub deck: Vec<DeckCard>,
    pub offer: Offer,
}

/// The picks with which a game is laid out: from the pool of tiles, from the
/// movement cards and from the catalogue of special cards.
#[derive(Clone, Debug, PartialEq, Eq)]
pub struct Picks {
    pub tiles: Vec<usize>,
    pub deck: Vec<usize>,
    pub cards: Vec<usize>,
}

/// What the player can do.
#[derive(Clone, Copy, Debug, PartialEq, Eq, Structural)]
pub enum PlayerAction {
    TileSelected(TileSelected),
    TileSelectedBlockerClose(TileSelectedBlockerClose),
    SpecialCardSelected(SpecialCardSelected),
    SpecialCardSelectedBlockerClose(SpecialCardSelectedBlockerClose),
}

/// The movement points after a tile has sent its message.
pub open spec fn points_after_tile(points: int, signal: TileSignal) -> int {
    match signal {
        TileSignal::MovementPoints(event) => counter_after(points, seq![event.0 as int]),
        _ => points,
    }
}

/// The turns left after a tile has sent its message.
pub open spec fn turns_after_tile(turns: int, signal: TileSignal) -> int {
    match signal {
        TileSignal::Turns(event) => counter_after(turns, seq![event.0 as int]),
        _ => turns,
    }
}

/// The movement points after a special card has sent its message.
pub open spec fn points_after_card(points: int, signal: CardSignal) -> int {
    match signal {
        CardSignal::MovementPoints(event) => counter_after(points, seq![event.0 as int]),
        _ => points,
    }
}

/// The turns left after a special card has sent its message.
pub open spec fn turns_after_card(turns: int, signal: CardSignal) -> int {
    match signal {
        CardSignal::Turns(event) => counter_after(turns, seq![event.0 as int]),
        _ => turns,
    }
}

/// The deck after a special card has sent its message.
pub open spec fn deck_after_signal(deck: Seq<DeckCard>, signal: CardSignal) -> Seq<DeckCard> {
    match signal {
        CardSignal::DrawCard(event) => after_draw_request(deck, event.0 as int),
        _ => deck,
    }
}

/// Whether two lists hold the same numbers in the same order.
fn same_numbers(a: &Vec<u32>, b: &Vec<u32>) -> (same: bool)
    ensures
        same == (a@ == b@),
{
    if a.len() != b.len() {
        return false;
    }
    let mut k: usize = 0;
    while k < a.len()
        invariant
            k <= a@.len() == b@.len(),
            forall|j: int| 0 <= j < k ==> a@[j] == b@[j],
        decreases a@.len() - k,
    {
        if a[k] != b[k] {
            return false;
        }
        k += 1;
    }
    assert(a@ =~= b@);
    true
}

/// Whether the list holds the number.
fn holds_number(list: &Vec<u32>, number: u32) -> (held: bool)
    ensures
        held == list@.contains(number),
{
    let mut k: usize = 0;
    while k < list.len()
        invariant
            k <= list@.len(),
            forall|j: int| 0 <= j < k ==> list@[j] != number,
        decreases list@.len() - k,
    {
        if list[k] == number {
            return true;
        }
        k += 1;
    }
    false
}

impl Game {
    /// The message that the revealed tile sends when it is closed: its
    /// effect, unless the token stands on it already.
    pub open spec fn tile_signal(&self) -> TileSignal {
        match self.board.revealed {
            Some(n) => if self.board.current_index() == n {
                TileSignal::Nothing
            } else {
                effect_of(self.board.tiles@[n as int]@)
            },
            None => TileSignal::Nothing,
        }
    }

    /// The kind of the chosen special card.
    pub open spec fn card_effect(&self) -> crate::special_cards::CardType {
        played_effect(self.offer.cards@, self.offer.selected)
    }

    /// The value of the chosen special card.
    pub open spec fn card_value(&self) -> i32 {
        played_value(self.offer.cards@, self.offer.selected)
    }

    /// The message that the chosen special card sends when it is played.
    pub open spec fn card_signal(&self) -> CardSignal {
        signal_of(self.card_effect(), self.card_value())
    }

    /// The tiles after the chosen special card was played.
    pub open spec fn tiles_after_card(&self) -> Seq<TileView> {
        tiles_after(self.card_effect(), self.card_value(), tile_views(self.board.tiles@))
    }

    /// The deck after the chosen special card was played and the cards that
    /// it asked for were drawn: the hand that is played next.
    pub open spec fn deck_before_play(&self) -> Seq<DeckCard> {
        deck_after_signal(
            deck_after(self.card_effect(), self.card_value(), self.deck@),
            self.card_signal(),
        )
    }

    /// The movement points after the chosen special card and then the hand
    /// were played.
    pub open spec fn points_after_play(&self) -> int {
        counter_after(
            points_after_card(self.movement_points.0 as int, self.card_signal()),
            hand_credits(self.deck_before_play()),
        )
    }

    /// The turns left after the chosen special card was played and the turn
    /// was counted.
    pub open spec fn turns_after_turn(&self) -> int {
        counter_after(
            turns_after_card(self.turns_left.0 as int, self.card_signal()),
            seq![-1int],
        )
    }

    /// How the turn ends in which the chosen special card is played.
    pub open spec fn outcome_of_turn(&self) -> TurnOutcome {
        turn_outcome(
            self.turns_after_turn(),
            self.points_after_play(),
            self.tiles_after_card()[self.board.current_index()].cost as int,
            self.board.current_index(),
        )
    }

    /// Whether the tiles that are open to choice are those that can be
    /// entered from the current tile.
    pub open spec fn offers_neighbours(&self) -> bool {
        self.board.selectable@ == neighbours_of(self.board.current_index() as u32)
    }

    /// Whether the current tile alone is open to choice, as it is when a
    /// game starts.
    pub open spec fn offers_current(&self) -> bool {
        self.board.selectable@ == seq![self.board.current_index() as u32]
    }

    /// The board and the offer are well formed, and the game stands in a
    /// phase in which it waits for the player, or it has ended. While the
    /// player chooses a tile, the tiles next to the current one are open to
    /// choice and no others; a tile that lies revealed is one of them, or the
    /// current tile at the start of a game.
    pub open spec fn wf(&self) -> bool {
        &&& self.board.wf()
        &&& self.offer.wf()
        &&& (self.outcome is Some <==> self.state.0 == GameStates::TurnEnd)
        &&& match self.state.0 {
            GameStates::TileReveal => {
                &&& self.board.revealed is Some
                &&& self.offer.selected is None
                &&& self.board.selectable@.contains(self.board.revealed->0)
                &&& (self.offers_neighbours() || self.offers_current())
            },
            GameStates::SpecialCardSelection => self.board.revealed is None
                && self.offer.selected is None,
            GameStates::SpecialCardReveal => self.board.revealed is None
                && self.offer.selected is Some,
            GameStates::TileSelection => self.board.revealed is None && self.offer.selected is None
                && self.offers_neighbours(),
            GameStates::TurnEnd => true,
            _ => false,
        }
    }

    /// Whether the game takes the action in the phase in which it stands.
    pub open spec fn takes(&self, action: PlayerAction) -> bool {
        match action {
            PlayerAction::TileSelected(event) => self.state.0 == GameStates::TileSelection
                && self.board.selectable@.contains(event.0),
            PlayerAction::TileSelectedBlockerClose(_) => self.state.0 == GameStates::TileReveal,
            PlayerAction::SpecialCardSelected(event) => self.state.0
                == GameStates::SpecialCardSelection && event.0 < self.offer.cards@.len()
                && self.offer.cards@[event.0 as int].status == OfferStatus::Selectable,
            PlayerAction::SpecialCardSelectedBlockerClose(_) => self.state.0
                == GameStates::SpecialCardReveal,
        }
    }

    /// Whether the game is well formed.
    pub fn is_valid(&self) -> (ok: bool)
        ensures
            ok == self.wf(),
    {
        if !self.board.is_valid() || !self.offer.is_valid() {
            return false;
        }
        let ended = self.outcome.is_some();
        let current = self.board.current() as u32;
        let neighbours = get_neighbours(current);
        let offers_neighbours = same_numbers(&self.board.selectable, &neighbours);
        match self.state.0 {
            GameStates::TileReveal => {
                let offers_current = self.board.selectable.len() == 1 && self.board.selectable[0]
                    == current;
                proof {
                    if offers_current {
                        assert(self.board.selectable@ =~= seq![current]);
                    }
                    if self.offers_current() {
                        assert(self.board.selectable@[0] == current);
                    }
                }
                let revealed_is_offered = match self.board.revealed {
                    Some(n) => holds_number(&self.board.selectable, n),
                    None => false,
                };
                !ended && self.board.revealed.is_some() && self.offer.selected.is_none()
                    && revealed_is_offered && (offers_neighbours || offers_current)
            },
            GameStates::SpecialCardSelection => !ended && self.board.revealed.is_none()
                && self.offer.selected.is_none(),
            GameStates::SpecialCardReveal => !ended && self.board.revealed.is_none()
                && self.offer.selected.is_some(),
            GameStates::TileSelection => !ended && self.board.revealed.is_none()
                && self.offer.selected.is_none() && offers_neighbours,
            GameStates::TurnEnd => ended,
            _ => false,
        }
    }

    /// The tile that lies revealed.
    pub fn revealed_tile(&self) -> (tile: Option<&Tile>)
        requires
            self.wf(),
        ensures
            match self.board.revealed {
                Some(n) => tile == Some(&self.board.tiles@[n as int]),
                None => tile is None,
            },
    {
        match self.board.revealed {
            Some(n) => Some(&self.board.tiles[n as usize]),
            None => None,
        }
    }

    /// Whether the game takes the action in the phase in which it stands.
    pub fn accepts(&self, action: PlayerAction) -> (ok: bool)
        requires
            self.wf(),
        ensures
            ok == self.takes(action),
    {
        match action {
            PlayerAction::TileSelected(event) => self.state.0 == GameStates::TileSelection
                && self.board.is_selectable(event.0),
            PlayerAction::TileSelectedBlockerClose(_) => self.state.0 == GameStates::TileReveal,
            PlayerAction::SpecialCardSelected(event) => self.state.0
                == GameStates::SpecialCardSelection && self.offer.is_selectable(event.0),
            PlayerAction::SpecialCardSelectedBlockerClose(_) => self.state.0
                == GameStates::SpecialCardReveal,
        }
    }

    /// A game at its start, with the given board, movement cards and special
    /// cards: the counters stand at their first values, and the start tile
    /// lies revealed. `None` where the tiles are not those of a board laid
    /// out for a start.
    pub fn new(tiles: Vec<Tile>, deck: Vec<DeckCard>, cards: Vec<OfferedCard>) -> (game: Option<
        Game,
    >)
        ensures
            match game {
                Some(g) => {
                    &&& g.wf()
                    &&& g.state.0 == GameStates::TileReveal
                    &&& g.outcome is None
                    &&& g.movement_points.0 == crate::movement::MOVEMENT_POINTS_INIT_VALUE
                    &&& g.turns_left.0 == crate::turns::TURNS_INIT_VALUE
                    &&& g.board.tiles == tiles
                    &&& g.board.revealed == Some(START_TILE)
                    &&& g.board.selectable@ == seq![START_TILE]
                    &&& g.board.visited.0@ == seq![START_TILE]
                    &&& g.deck == deck
                    &&& g.offer.cards == cards
                    &&& g.offer.selected is None
                },
                None => !(tiles@.len() == BOARD_SLOTS && crate::tiles::is_numbered(
                    tile_views(tiles@),
                ) && crate::tiles::is_sole_current(tile_views(tiles@), START_TILE as int)),
            },
    {
        let board = Board::new(tiles);
        match board {
            Some(board) => {
                let mut game = Game {
                    state: GameState(GameStates::TileReveal),
                    outcome: None,
                    movement_points: MovementPoints::new(),
                    turns_left: TurnsLeft::new(),
                    board,
                    deck,
                    offer: Offer::new(cards),
                };
                let (points, turns, selected) = on_tile_setup_complete(
                    &mut game.board,
                    TileSetupComplete,
                );
                game.movement_points.apply_movement_delta(points.0);
                game.turns_left.apply_turn_delta(turns.0);
                assert(game.board.selectable@[0] == selected.0);
                on_tile_selected(&mut game.board, selected);
                Some(game)
            },
            None => None,
        }
    }

    /// Whether this is the game that closing the revealed tile makes of
    /// `before`: the token has entered the tile; where it did not stand there
    /// already, the tile is the last of the visited tiles and its effect is
    /// applied to the counters; two movement cards are drawn, and the special
    /// cards are open to the player's choice.
    pub open spec fn is_after_closing_tile(&self, before: Game) -> bool {
        &&& self.wf()
        &&& self.state.0 == GameStates::SpecialCardSelection
        &&& self.outcome is None
        &&& self.movement_points.0 == points_after_tile(
            before.movement_points.0 as int,
            before.tile_signal(),
        )
        &&& self.turns_left.0 == turns_after_tile(
            before.turns_left.0 as int,
            before.tile_signal(),
        )
        &&& tile_views(self.board.tiles@) == after_entering(
            tile_views(before.board.tiles@),
            before.board.revealed->0 as int,
        )
        &&& self.board.current_index() == before.board.revealed->0
        &&& self.board.visited.0@ == if before.board.current_index()
            == before.board.revealed->0 {
            before.board.visited.0@
        } else {
            before.board.visited.0@.push(before.board.revealed->0)
        }
        &&& self.board.revealed is None
        &&& self.board.selectable == before.board.selectable
        &&& self.deck@ == after_draw(before.deck@, CARDS_TO_DRAW as int)
        &&& self.offer.cards@ == after_opening(before.offer.cards@)
        &&& self.offer.selected is None
    }

    /// Whether this is the game that choosing a special card makes of
    /// `before`: the card lies revealed, and nothing else has changed.
    pub open spec fn is_after_choosing_card(&self, before: Game, event: SpecialCardSelected) -> bool {
        &&& self.wf()
        &&& self.state.0 == GameStates::SpecialCardReveal
        &&& self.offer.selected == Some(event.0)
        &&& self.offer.cards == before.offer.cards
        &&& self.outcome == before.outcome
        &&& self.movement_points == before.movement_points
        &&& self.turns_left == before.turns_left
        &&& self.board == before.board
        &&& self.deck == before.deck
    }

    /// Whether this is the game that choosing a tile makes of `before`: the
    /// tile lies revealed, the token has not moved, and nothing else has
    /// changed.
    pub open spec fn is_after_choosing_tile(&self, before: Game, event: TileSelected) -> bool {
        &&& self.wf()
        &&& self.state.0 == GameStates::TileReveal
        &&& self.board.revealed == Some(event.0)
        &&& self.board.tiles == before.board.tiles
        &&& self.board.selectable == before.board.selectable
        &&& self.board.visited == before.board.visited
        &&& self.outcome == before.outcome
        &&& self.movement_points == before.movement_points
        &&& self.turns_left == before.turns_left
        &&& self.deck == before.deck
        &&& self.offer == before.offer
    }

    /// Whether this is the game that closing the chosen special card makes
    /// of `before`, the turn ending as `outcome` says: the card is played and
    /// discarded, the hand is played and credited, the turn is counted, and
    /// the game is judged. A game that goes on has either the tiles next to
    /// the current one open to choice, or movement cards drawn and the
    /// special cards opened again.
    pub open spec fn is_after_closing_card(&self, before: Game, outcome: TurnOutcome) -> bool {
        &&& self.wf()
        &&& outcome == before.outcome_of_turn()
        &&& self.movement_points.0 == before.points_after_play()
        &&& self.turns_left.0 == before.turns_after_turn()
        &&& tile_views(self.board.tiles@) == before.tiles_after_card()
        &&& self.board.current_index() == before.board.current_index()
        &&& self.board.selectable@ == if outcome is Traverse {
            neighbours_of(before.board.current_index() as u32)
        } else {
            before.board.selectable@
        }
        &&& self.board.revealed is None
        &&& self.board.visited == before.board.visited
        &&& self.deck@ == if outcome is Retry {
            after_draw(after_discard(before.deck_before_play()), CARDS_TO_DRAW as int)
        } else {
            after_discard(before.deck_before_play())
        }
        &&& self.offer.cards@ == if outcome is Retry {
            after_opening(after_closing(before.offer.cards@, before.offer.selected))
        } else {
            after_closing(before.offer.cards@, before.offer.selected)
        }
        &&& self.offer.selected is None
        &&& self.state.0 == match outcome {
            TurnOutcome::Loss => GameStates::TurnEnd,
            TurnOutcome::Win => GameStates::TurnEnd,
            TurnOutcome::Traverse => GameStates::TileSelection,
            TurnOutcome::Retry(_) => GameStates::SpecialCardSelection,
        }
        &&& self.outcome == match outcome {
            TurnOutcome::Loss => Some(GameOver::Loss),
            TurnOutcome::Win => Some(GameOver::Win),
            _ => None::<GameOver>,
        }
    }

    /// Whether this is the game that an action which the game took makes of
    /// `before`. `outcome` tells how the turn ended, where the action ended
    /// one.
    pub open spec fn is_after(&self, before: Game, action: PlayerAction, outcome: Option<
        TurnOutcome,
    >) -> bool {
        match action {
            PlayerAction::TileSelected(event) => outcome is None && self.is_after_choosing_tile(
                before,
                event,
            ),
            PlayerAction::TileSelectedBlockerClose(_) => outcome is None
                && self.is_after_closing_tile(before),
            PlayerAction::SpecialCardSelected(event) => outcome is None
                && self.is_after_choosing_card(before, event),
            PlayerAction::SpecialCardSelectedBlockerClose(_) => outcome is Some
                && self.is_after_closing_card(before, outcome->0),
        }
    }

    /// The player closes the revealed tile. The token enters it; where it did
    /// not stand there already, the tile is written to the visited tiles and
    /// its effect is applied to the counters. Then movement cards are drawn
    /// and the special cards are opened to the player's choice.
    pub fn close_tile(&mut self, event: TileSelectedBlockerClose)
        requires
            old(self).wf(),
            old(self).state.0 == GameStates::TileReveal,
        ensures
            final(self).is_after_closing_tile(*old(self)),
    {
        self.state = GameState(GameStates::PlayerMovement);
        let (signal, closed) = tile_selected_close(&mut self.board, event);
        self.state = GameState(GameStates::Afflictions);
        match signal {
            TileSignal::MovementPoints(update) => {
                self.movement_points.apply_movement_delta(update.0);
            },
            TileSignal::Turns(update) => {
                self.turns_left.apply_turn_delta(update.0);
            },
            TileSignal::Nothing => {},
        }
        let drawn = on_tile_closed_event(&mut self.deck, closed);
        on_movement_cards_drawn(&mut self.offer, drawn);
        self.state = GameState(GameStates::SpecialCardSelection);
    }

    /// The player chooses a special card among those that are open to
    /// choice. The card lies revealed afterwards and waits to be closed.
    pub fn select_special_card(&mut self, event: SpecialCardSelected)
        requires
            old(self).wf(),
            old(self).takes(PlayerAction::SpecialCardSelected(event)),
        ensures
            final(self).is_after_choosing_card(*old(self), event),
    {
        on_special_card_selected(&mut self.offer, event);
        self.state = GameState(GameStates::SpecialCardReveal);
    }

    /// The player chooses one of the tiles that are open to choice. The tile
    /// lies revealed afterwards and waits to be closed; the token has not
    /// moved yet.
    pub fn select_tile(&mut self, event: TileSelected)
        requires
            old(self).wf(),
            old(self).takes(PlayerAction::TileSelected(event)),
        ensures
            final(self).is_after_choosing_tile(*old(self), event),
    {
        on_tile_selected(&mut self.board, event);
        self.state = GameState(GameStates::TileReveal);
    }

    /// The player closes the chosen special card, and the rest of the turn
    /// runs: the card is played and discarded; the cards that it asked for
    /// are drawn; the hand is played and credited to the movement points; one
    /// turn is taken off the countdown; and the game is judged. If the game
    /// goes on and the current tile is paid for, the tiles next to it are
    /// opened to the player's choice. If it is not paid for, movement cards
    /// are drawn and the special cards are opened again.
    pub fn close_special_card(&mut self, event: SpecialCardSelectedBlockerClose) -> (outcome:
        TurnOutcome)
        requires
            old(self).wf(),
            old(self).state.0 == GameStates::SpecialCardReveal,
        ensures
            final(self).is_after_closing_card(*old(self), outcome),
    {
        let ghost tiles_before = tile_views(self.board.tiles@);
        let (signal, closed) = selected_special_card_close(
            &mut self.offer,
            &mut self.deck,
            &mut self.board.tiles,
            event,
        );
        proof {
            lemma_effects_keep_layout(
                tiles_before,
                tile_views(self.board.tiles@),
                old(self).card_value() as int,
            );
        }
        self.state = GameState(GameStates::MovementCardsPlay);
        match signal {
            CardSignal::DrawCard(request) => {
                let mut requests: Vec<DrawCardEvent> = Vec::new();
                requests.push(request);
                proof {
                    assert(requests@.map_values(|e: DrawCardEvent| e.0 as int) =~= seq![
                        request.0 as int,
                    ]);
                    lemma_total_of_one(request.0 as int);
                }
                on_draw_card(&mut self.deck, &requests);
            },
            CardSignal::MovementPoints(update) => {
                self.movement_points.apply_movement_delta(update.0);
            },
            CardSignal::Turns(update) => {
                self.turns_left.apply_turn_delta(update.0);
            },
            CardSignal::Nothing => {},
        }
        let (credits, played) = on_special_card_closed_event(&mut self.deck, closed);
        update_movement_points(&mut self.movement_points, &credits);
        self.state = GameState(GameStates::TurnEnd);
        let outcome = on_turn_ended(
            &mut self.board,
            &self.movement_points,
            &mut self.turns_left,
            played,
        );
        match outcome {
            TurnOutcome::Loss => {
                self.outcome = Some(GameOver::Loss);
            },
            TurnOutcome::Win => {
                self.outcome = Some(GameOver::Win);
            },
            TurnOutcome::Traverse => {
                self.state = GameState(GameStates::TileSelection);
            },
            TurnOutcome::Retry(closed) => {
                let drawn = on_tile_closed_event(&mut self.deck, closed);
                on_movement_cards_drawn(&mut self.offer, drawn);
                self.state = GameState(GameStates::SpecialCardSelection);
            },
        }
        outcome
    }

    /// Hands an action of the player to the game. An action that the game
    /// does not take in the phase in which it stands is refused, and the game
    /// is left as it was; an action that it takes is carried out. The second
    /// component tells how the turn ended, where the action ended one.
    pub fn handle(&mut self, action: PlayerAction) -> (out: (bool, Option<TurnOutcome>))
        requires
            old(self).wf(),
        ensures
            out.0 == old(self).takes(action),
            out.0 ==> final(self).is_after(*old(self), action, out.1),
            !out.0 ==> *final(self) == *old(self) && out.1 is None,
            final(self).wf(),
    {
        if !self.accepts(action) {
            return (false, None);
        }
        match action {
            PlayerAction::TileSelected(event) => {
                self.select_tile(event);
                (true, None)
            },
            PlayerAction::TileSelectedBlockerClose(event) => {
                self.close_tile(event);
                (true, None)
            },
            PlayerAction::SpecialCardSelected(event) => {
                self.select_special_card(event);
                (true, None)
            },
            PlayerAction::SpecialCardSelectedBlockerClose(event) => {
                let outcome = self.close_special_card(event);
                (true, Some(outcome))
            },
        }
    }

    /// Whether the game is one that was laid out with the given picks and
    /// stands at its start.
    pub open spec fn is_laid_out_with(&self, picks: Picks) -> bool {
        &&& self.wf()
        &&& self.state.0 == GameStates::TileReveal
        &&& self.outcome is None
        &&& self.movement_points.0 == crate::movement::MOVEMENT_POINTS_INIT_VALUE
        &&& self.turns_left.0 == crate::turns::TURNS_INIT_VALUE
        &&& tile_views(self.board.tiles@) == crate::tiles::laid_out(
            crate::sampling::sampled(crate::tiles::tile_pool(), picks_of(picks.tiles@)),
        )
        &&& self.board.revealed == Some(START_TILE)
        &&& self.board.selectable@ == seq![START_TILE]
        &&& self.board.visited.0@ == seq![START_TILE]
        &&& crate::movement::deck_views(self.deck@) == crate::sampling::sampled(
            crate::movement::movement_card_pool(),
            picks_of(picks.deck@),
        )
        &&& crate::movement::all_in_stock(self.deck@)
        &&& crate::special_cards::offered_views(self.offer.cards@) == crate::sampling::sampled(
            crate::special_cards::special_card_catalogue(),
            picks_of(picks.cards@),
        )
        &&& crate::special_cards::all_covered(self.offer.cards@)
        &&& self.offer.selected is None
    }

    /// Whether the picks can be made: there are as many as a game needs of
    /// each kind, and each names an entry that is still there.
    pub open spec fn picks_are_fit(picks: Picks) -> bool {
        &&& picks.tiles@.len() == BOARD_SLOTS
        &&& picks_fit(POOL_SIZE as int, picks_of(picks.tiles@))
        &&& picks.deck@.len() == DECK_SIZE
        &&& picks_fit(DECK_SIZE as int, picks_of(picks.deck@))
        &&& picks.cards@.len() == crate::special_cards::CARDS_TO_DRAW
        &&& picks_fit(CATALOGUE_SIZE as int, picks_of(picks.cards@))
    }

    /// Lays out a game with the given picks, so that the same picks always
    /// give the same game. `None` where the picks cannot be made.
    pub fn setup_with(picks: &Picks) -> (game: Option<Game>)
        ensures
            game is Some <==> Self::picks_are_fit(*picks),
            game matches Some(g) ==> g.is_laid_out_with(*picks),
    {
        let tiles = match setup_tiles_with(&picks.tiles) {
            Some(tiles) => tiles,
            None => {
                return None;
            },
        };
        let deck = match setup_movement_cards_with(&picks.deck) {
            Some(deck) => deck,
            None => {
                return None;
            },
        };
        let cards = match setup_special_cards_with(&picks.cards) {
            Some(cards) => cards,
            None => {
                return None;
            },
        };
        let game = Game::new(tiles, deck, cards);
        Some(game.unwrap())
    }

    /// Lays out a game at random: the board, the movement cards and the
    /// special cards are each sampled without replacement. The second
    /// component lists the picks that were made.
    pub fn setup() -> (out: (Game, Picks))
        ensures
            Self::picks_are_fit(out.1),
            out.0.is_laid_out_with(out.1),
    {
        let (tiles, tile_picks) = setup_tiles();
        let (deck, deck_picks) = setup_movement_cards();
        let (cards, card_picks) = setup_special_cards();
        let game = Game::new(tiles, deck, cards);
        (game.unwrap(), Picks { tiles: tile_picks, deck: deck_picks, cards: card_picks })
    }

    /// Whether the picks can be made.
    pub fn check_picks(picks: &Picks) -> (ok: bool)
        ensures
            ok == Self::picks_are_fit(*picks),
    {
        picks.tiles.len() == BOARD_SLOTS && crate::sampling::picks_are_valid(
            POOL_SIZE,
            &picks.tiles,
        ) && picks.deck.len() == DECK_SIZE && crate::sampling::picks_are_valid(
            DECK_SIZE,
            &picks.deck,
        ) && picks.cards.len() == crate::special_cards::CARDS_TO_DRAW
            && crate::sampling::picks_are_valid(CATALOGUE_SIZE, &picks.cards)
    }

    /// The token moves along the graph: when a revealed tile is closed, the
    /// token stays where it stood or stands on a tile that can be entered
    /// from there.
    pub proof fn token_moves_along_the_graph(before: Game, after: Game)
        requires
            before.wf(),
            before.state.0 == GameStates::TileReveal,
            after.is_after_closing_tile(before),
        ensures
            after.board.current_index() == before.board.current_index() || neighbours_of(
                before.board.current_index() as u32,
            ).contains(after.board.current_index() as u32),
    {
        if before.offers_current() {
            let list = before.board.selectable@;
            let n = before.board.revealed->0;
            let k = choose|k: int| 0 <= k < list.len() && list[k] == n;
            assert(list[0] == before.board.current_index() as u32);
        }
    }

    /// A game that has ended takes no action any more.
    pub proof fn ended_game_takes_nothing(&self, action: PlayerAction)
        requires
            self.wf(),
            self.outcome is Some,
        ensures
            !self.takes(action),
    {
    }
}

} // verus!
