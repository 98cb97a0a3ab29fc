//! The board: eleven numbered tiles, the fixed graph that joins them, and the
//! pool of tile definitions from which a board is laid out.

use crate::ledger::counter_after;
use crate::movement::{MovementCardsPlayedEvent, MovementPoints, MovementPointsUpdateEvent};
use crate::sampling::{
    lemma_sample_lengths, lemma_sample_of_mapped, picks_fit, picks_of, sample, sample_at_random,
    sampled,
};
use crate::turns::{TurnsLeft, TurnsUpdateEvent};
use vstd::prelude::*;

verus! {

/// What visiting a tile does to the player.
#[derive(Clone, Copy, Debug, PartialEq, Eq, Structural)]
pub enum TileType {
    Plain,
    MovementPointsUpdate,
    TurnUpdate,
    Blessing,
}

/// One tile of the board.
#[derive(Clone, Debug, PartialEq, Eq)]
pub struct Tile {
    pub cost: u32,
    pub description: String,
    pub number: u32,
    pub tile_type: TileType,
    pub value: i32,
    pub duration: i32,
    pub current: bool,
}

impl Default for TileType {
    fn default() -> (kind: TileType)
        ensures
            kind == TileType::Plain,
    {
        TileType::Plain
    }
}

impl Default for Tile {
    /// A plain tile that costs nothing and says nothing.
    fn default() -> (tile: Tile)
        ensures
            tile@ == pool_entry(0, Seq::<char>::empty(), TileType::Plain, 0, 0),
    {
        Tile {
            cost: 0,
            description: String::new(),
            number: 0,
            tile_type: TileType::Plain,
            value: 0,
            duration: 0,
            current: false,
        }
    }
}

/// A tile as a plain value, its description as a sequence of characters.
pub struct TileView {
    pub cost: u32,
    pub description: Seq<char>,
    pub number: u32,
    pub tile_type: TileType,
    pub value: i32,
    pub duration: i32,
    pub current: bool,
}

impl View for Tile {
    type V = TileView;

    open spec fn view(&self) -> TileView {
        TileView {
            cost: self.cost,
            description: self.description@,
            number: self.number,
            tile_type: self.tile_type,
            value: self.value,
            duration: self.duration,
            current: self.current,
        }
    }
}

/// The views of a sequence of tiles.
pub open spec fn tile_views(tiles: Seq<Tile>) -> Seq<TileView> {
    tiles.map_values(|t: Tile| t@)
}

/// The number of the tile on which the game starts.
pub const START_TILE: u32 = 0;

/// The number of the tile that has to be reached.
pub const GOAL_TILE: u32 = 10;

/// The tiles that can be entered from tile `index`. The graph is directed and
/// written out by hand; the goal and every number past it lead back to the
/// start.
pub open spec fn neighbours_of(index: u32) -> Seq<u32> {
    if index == 0 {
        seq![1u32, 2u32, 3u32]
    } else if index == 1 {
        seq![2u32, 4u32, 5u32]
    } else if index == 2 {
        seq![1u32, 3u32, 4u32, 5u32, 6u32]
    } else if index == 3 {
        seq![2u32, 5u32, 6u32]
    } else if index == 4 {
        seq![5u32, 7u32, 8u32]
    } else if index == 5 {
        seq![4u32, 6u32, 7u32, 8u32, 9u32]
    } else if index == 6 {
        seq![5u32, 8u32, 9u32]
    } else if index == 7 {
        seq![8u32, 10u32]
    } else if index == 8 {
        seq![7u32, 9u32, 10u32]
    } else if index == 9 {
        seq![8u32, 10u32]
    } else {
        seq![0u32]
    }
}

/// The tiles that can be entered from tile `index`.
pub fn get_neighbours(index: u32) -> (out: Vec<u32>)
    ensures
        out@ == neighbours_of(index),
{
    let out = match index {
        0 => vec![1, 2, 3],
        1 => vec![2, 4, 5],
        2 => vec![1, 3, 4, 5, 6],
        3 => vec![2, 5, 6],
        4 => vec![5, 7, 8],
        5 => vec![4, 6, 7, 8, 9],
        6 => vec![5, 8, 9],
        7 => vec![8, 10],
        8 => vec![7, 9, 10],
        9 => vec![8, 10],
        _ => vec![0],
    };
    assert(out@ =~= neighbours_of(index));
    out
}

/// The number of tiles on a board.
pub const BOARD_SLOTS: usize = 11;

/// The number of tile definitions in the pool.
pub const POOL_SIZE: usize = 24;

/// A tile definition as it lies in the pool: not yet numbered, not current.
pub open spec fn pool_entry(
    cost: u32,
    description: Seq<char>,
    tile_type: TileType,
    value: i32,
    duration: i32,
) -> TileView {
    TileView { cost, description, number: 0, tile_type, value, duration, current: false }
}

/// Cursed ruins: two movement points are lost, with no end to it.
pub open spec fn ruins_entry(cost: u32) -> TileView {
    pool_entry(
        cost,
        "You find ruins with a shiny object. \"Stop!\" You touch it and get cursed. Lose 2 movement points each turn."@,
        TileType::MovementPointsUpdate,
        (-2) as i32,
        (-1) as i32,
    )
}

/// A tree with strange fruit: one movement point is gained.
pub open spec fn fruit_tree_entry(cost: u32) -> TileView {
    pool_entry(
        cost,
        "Tree with strange fruit. You bite it, \"yum.\" Gain 1 movement point."@,
        TileType::MovementPointsUpdate,
        1,
        0,
    )
}

/// A fight with a lion: two movement points are lost.
pub open spec fn lion_fight_entry(cost: u32) -> TileView {
    pool_entry(
        cost,
        "Lion fight. You survive. Lose 2 movement points."@,
        TileType::MovementPointsUpdate,
        (-2) as i32,
        0,
    )
}

/// A river to swim across: one turn is lost.
pub open spec fn river_entry(cost: u32) -> TileView {
    pool_entry(
        cost,
        "River! You have to swim across, lose 1 turn."@,
        TileType::TurnUpdate,
        (-1) as i32,
        0,
    )
}

/// A friendly village: a blessing.
pub open spec fn village_entry(cost: u32, value: i32) -> TileView {
    pool_entry(
        cost,
        "Village with nice people. They give you a reed bed. You sleep well. Remove ailments or curses."@,
        TileType::Blessing,
        value,
        0,
    )
}

/// A cool breeze: nothing happens.
pub open spec fn cool_breeze_entry(cost: u32) -> TileView {
    pool_entry(cost, "Cool breeze. Adventure time."@, TileType::Plain, 0, 0)
}

/// A snake bite: one movement point is lost, for two turns.
pub open spec fn snake_bite_entry(cost: u32) -> TileView {
    pool_entry(
        cost,
        "Snake bite. You are poisoned. Lose 1 movement point for 2 turns."@,
        TileType::MovementPointsUpdate,
        (-1) as i32,
        2,
    )
}

/// An elephant to ride on: two movement points are gained.
pub open spec fn elephant_entry(cost: u32) -> TileView {
    pool_entry(
        cost,
        "You befriend an elephant. You ride on its back. Gain 2 movement points."@,
        TileType::MovementPointsUpdate,
        2,
        0,
    )
}

/// The pool of tile definitions, in the order in which it is generated.
pub open spec fn tile_pool() -> Seq<TileView> {
    seq![
        ruins_entry(1),
        fruit_tree_entry(1),
        lion_fight_entry(1),
        river_entry(2),
        village_entry(2, 0),
        cool_breeze_entry(2),
        snake_bite_entry(3),
        fruit_tree_entry(3),
        river_entry(4),
        ruins_entry(4),
        village_entry(4, (-1) as i32),
        ruins_entry(5),
        fruit_tree_entry(5),
        elephant_entry(5),
        lion_fight_entry(6),
        cool_breeze_entry(6),
        river_entry(7),
        village_entry(7, (-1) as i32),
        lion_fight_entry(7),
        elephant_entry(8),
        snake_bite_entry(8),
        snake_bite_entry(9),
        elephant_entry(9),
        cool_breeze_entry(9),
    ]
}

fn pool_tile(cost: u32, description: &str, tile_type: TileType, value: i32, duration: i32) -> (t:
    Tile)
    ensures
        t@ == pool_entry(cost, description@, tile_type, value, duration),
{
    Tile {
        cost,
        description: description.to_owned(),
        number: 0,
        tile_type,
        value,
        duration,
        current: false,
    }
}

fn ruins(cost: u32) -> (t: Tile)
    ensures
        t@ == ruins_entry(cost),
{
    pool_tile(
        cost,
        "You find ruins with a shiny object. \"Stop!\" You touch it and get cursed. Lose 2 movement points each turn.",
        TileType::MovementPointsUpdate,
        -2,
        -1,
    )
}

fn fruit_tree(cost: u32) -> (t: Tile)
    ensures
        t@ == fruit_tree_entry(cost),
{
    pool_tile(
        cost,
        "Tree with strange fruit. You bite it, \"yum.\" Gain 1 movement point.",
        TileType::MovementPointsUpdate,
        1,
        0,
    )
}

fn lion_fight(cost: u32) -> (t: Tile)
    ensures
        t@ == lion_fight_entry(cost),
{
    pool_tile(
        cost,
        "Lion fight. You survive. Lose 2 movement points.",
        TileType::MovementPointsUpdate,
        -2,
        0,
    )
}

fn river(cost: u32) -> (t: Tile)
    ensures
        t@ == river_entry(cost),
{
    pool_tile(cost, "River! You have to swim across, lose 1 turn.", TileType::TurnUpdate, -1, 0)
}

fn village(cost: u32, value: i32) -> (t: Tile)
    ensures
        t@ == village_entry(cost, value),
{
    pool_tile(
        cost,
        "Village with nice people. They give you a reed bed. You sleep well. Remove ailments or curses.",
        TileType::Blessing,
        value,
        0,
    )
}

fn cool_breeze(cost: u32) -> (t: Tile)
    ensures
        t@ == cool_breeze_entry(cost),
{
    pool_tile(cost, "Cool breeze. Adventure time.", TileType::Plain, 0, 0)
}

fn snake_bite(cost: u32) -> (t: Tile)
    ensures
        t@ == snake_bite_entry(cost),
{
    pool_tile(
        cost,
        "Snake bite. You are poisoned. Lose 1 movement point for 2 turns.",
        TileType::MovementPointsUpdate,
        -1,
        2,
    )
}

fn elephant(cost: u32) -> (t: Tile)
    ensures
        t@ == elephant_entry(cost),
{
    pool_tile(
        cost,
        "You befriend an elephant. You ride on its back. Gain 2 movement points.",
        TileType::MovementPointsUpdate,
        2,
        0,
    )
}

/// The pool of tile definitions from which a board is laid out. It holds more
/// definitions than a board has tiles.
pub fn generate_tiles() -> (pool: Vec<Tile>)
    ensures
        tile_views(pool@) == tile_pool(),
        pool@.len() == POOL_SIZE,
{
    let mut pool: Vec<Tile> = Vec::with_capacity(POOL_SIZE);
    pool.push(ruins(1));
    pool.push(fruit_tree(1));
    pool.push(lion_fight(1));
    pool.push(river(2));
    pool.push(village(2, 0));
    pool.push(cool_breeze(2));
    pool.push(snake_bite(3));
    pool.push(fruit_tree(3));
    pool.push(river(4));
    pool.push(ruins(4));
    pool.push(village(4, -1));
    pool.push(ruins(5));
    pool.push(fruit_tree(5));
    pool.push(elephant(5));
    pool.push(lion_fight(6));
    pool.push(cool_breeze(6));
    pool.push(river(7));
    pool.push(village(7, -1));
    pool.push(lion_fight(7));
    pool.push(elephant(8));
    pool.push(snake_bite(8));
    pool.push(snake_bite(9));
    pool.push(elephant(9));
    pool.push(cool_breeze(9));
    assert(tile_views(pool@) =~= tile_pool());
    pool
}

/// Whether some definition of the pool has the given cost.
pub open spec fn pool_offers_cost(cost: u32) -> bool {
    exists|i: int| 0 <= i < tile_pool().len() && (#[trigger] tile_pool()[i]).cost == cost
}

/// The pool holds more definitions than a board needs, their costs run from
/// one to nine with none left out, and no definition occurs twice.
pub proof fn tile_pool_is_rich()
    ensures
        tile_pool().len() == POOL_SIZE,
        POOL_SIZE >= BOARD_SLOTS,
        forall|i: int| 0 <= i < tile_pool().len() ==> 1 <= (#[trigger] tile_pool()[i]).cost <= 9,
        forall|cost: u32| 1 <= cost <= 9 ==> #[trigger] pool_offers_cost(cost),
        forall|i: int, j: int|
            0 <= i < j < tile_pool().len() ==> #[trigger] tile_pool()[i] != #[trigger] tile_pool()[j],
{
    let pool = tile_pool();
    assert(pool.len() == 24);
    assert(pool[0].cost == 1 && pool[3].cost == 2 && pool[6].cost == 3 && pool[8].cost == 4
        && pool[11].cost == 5 && pool[14].cost == 6 && pool[16].cost == 7 && pool[19].cost == 8
        && pool[21].cost == 9);
    assert forall|i: int, j: int| 0 <= i < j < pool.len() implies #[trigger] pool[i]
        != #[trigger] pool[j] by {
        let key = |t: TileView| (t.cost, t.tile_type, t.value, t.duration);
        assert(key(pool[i]) != key(pool[j]));
    }
}

/// The tiles of a board laid out from `sample`: numbered in the order of the
/// sample, the first of them current.
pub open spec fn laid_out(sample: Seq<TileView>) -> Seq<TileView> {
    Seq::new(
        sample.len(),
        |k: int| TileView { number: k as u32, current: k == START_TILE, ..sample[k] },
    )
}

/// Lays out a board from the pool with the given picks: each pick takes one
/// definition out of what is left of the pool. The tiles are numbered in the
/// order in which they were picked, and the first is the current one. `None`
/// where there are not as many picks as a board has tiles, or where a pick
/// names no definition of what is left.
pub fn setup_tiles_with(picks: &Vec<usize>) -> (board: Option<Vec<Tile>>)
    ensures
        board is Some <==> picks@.len() == BOARD_SLOTS && picks_fit(
            POOL_SIZE as int,
            picks_of(picks@),
        ),
        board matches Some(tiles) ==> tile_views(tiles@) == laid_out(
            sampled(tile_pool(), picks_of(picks@)),
        ) && tiles@.len() == BOARD_SLOTS,
{
    if picks.len() != BOARD_SLOTS {
        return None;
    }
    let mut pool = generate_tiles();
    let ghost start = pool@;
    match sample(&mut pool, picks) {
        Some(mut board) => {
            proof {
                lemma_sample_lengths(start, picks_of(picks@));
                lemma_sample_of_mapped(start, picks_of(picks@), |t: Tile| t@);
                assert(tile_views(start) =~= start.map_values(|t: Tile| t@));
                assert(tile_views(board@) =~= board@.map_values(|t: Tile| t@));
            }
            number_tiles(&mut board);
            proof {
                assert(tile_views(board@) =~= laid_out(
                    sampled(tile_pool(), picks_of(picks@)),
                ));
            }
            Some(board)
        },
        None => None,
    }
}

/// Lays out a board from the pool at random, without replacement. What is left
/// of the pool is dropped. The second component lists the picks that were
/// made.
pub fn setup_tiles() -> (out: (Vec<Tile>, Vec<usize>))
    ensures
        out.1@.len() == BOARD_SLOTS,
        picks_fit(POOL_SIZE as int, picks_of(out.1@)),
        tile_views(out.0@) == laid_out(sampled(tile_pool(), picks_of(out.1@))),
        out.0@.len() == BOARD_SLOTS,
{
    let mut pool = generate_tiles();
    let ghost start = pool@;
    let (mut board, picks) = sample_at_random(&mut pool, BOARD_SLOTS);
    proof {
        lemma_sample_lengths(start, picks_of(picks@));
        lemma_sample_of_mapped(start, picks_of(picks@), |t: Tile| t@);
        assert(tile_views(start) =~= start.map_values(|t: Tile| t@));
        assert(tile_views(board@) =~= board@.map_values(|t: Tile| t@));
    }
    number_tiles(&mut board);
    proof {
        assert(tile_views(board@) =~= laid_out(sampled(tile_pool(), picks_of(picks@))));
    }
    (board, picks)
}

/// Numbers the tiles in their order and makes the first the current one.
fn number_tiles(board: &mut Vec<Tile>)
    requires
        old(board)@.len() <= u32::MAX,
    ensures
        tile_views(final(board)@) == laid_out(tile_views(old(board)@)),
{
    let mut k: usize = 0;
    while k < board.len()
        invariant
            k <= board@.len() == old(board)@.len() <= u32::MAX,
            forall|j: int|
                0 <= j < k ==> (#[trigger] board@[j])@ == laid_out(tile_views(old(board)@))[j],
            forall|j: int| k <= j < board@.len() ==> #[trigger] board@[j] == old(board)@[j],
        decreases board@.len() - k,
    {
        board[k].number = k as u32;
        board[k].current = k == 0;
        k += 1;
    }
    assert(tile_views(board@) =~= laid_out(tile_views(old(board)@)));
}

/// A cost that was pushed out of the range of `u32` and stopped at its end:
/// a cost never falls below zero.
pub open spec fn saturated_cost(cost: int) -> u32 {
    if cost < 0 {
        0
    } else if cost > u32::MAX {
        u32::MAX
    } else {
        cost as u32
    }
}

fn saturate_cost(cost: i64) -> (r: u32)
    ensures
        r == saturated_cost(cost as int),
{
    if cost < 0 {
        0
    } else if cost > u32::MAX as i64 {
        u32::MAX
    } else {
        cost as u32
    }
}

/// Whether the tile at `i` is the first that is marked as current.
pub open spec fn is_first_current(tiles: Seq<TileView>, i: int) -> bool {
    &&& 0 <= i < tiles.len()
    &&& tiles[i].current
    &&& forall|j: int| 0 <= j < i ==> !(#[trigger] tiles[j]).current
}

/// Whether no tile is marked as current.
pub open spec fn no_current(tiles: Seq<TileView>) -> bool {
    forall|j: int| 0 <= j < tiles.len() ==> !(#[trigger] tiles[j]).current
}

/// The place of the first tile that is marked as current.
pub open spec fn current_tile(tiles: Seq<TileView>) -> int {
    choose|i: int| is_first_current(tiles, i)
}

/// Only one tile is the first current one.
pub proof fn lemma_first_current_is_unique(tiles: Seq<TileView>, i: int)
    requires
        is_first_current(tiles, i),
    ensures
        current_tile(tiles) == i,
        !no_current(tiles),
{
    let c = current_tile(tiles);
    if c < i {
        assert(!tiles[c].current);
    } else if i < c {
        assert(!tiles[i].current);
    }
}

/// Where some tile is marked as current, one of them is the first.
pub proof fn lemma_first_current_exists(tiles: Seq<TileView>)
    requires
        !no_current(tiles),
    ensures
        is_first_current(tiles, current_tile(tiles)),
{
    let j = choose|j: int| 0 <= j < tiles.len() && (#[trigger] tiles[j]).current;
    lemma_first_current_before(tiles, j);
}

proof fn lemma_first_current_before(tiles: Seq<TileView>, j: int)
    requires
        0 <= j < tiles.len(),
        tiles[j].current,
    ensures
        exists|i: int| is_first_current(tiles, i),
    decreases j,
{
    if exists|k: int| 0 <= k < j && (#[trigger] tiles[k]).current {
        let k = choose|k: int| 0 <= k < j && (#[trigger] tiles[k]).current;
        lemma_first_current_before(tiles, k);
    } else {
        assert(is_first_current(tiles, j));
    }
}

/// Finds the first tile that is marked as current.
pub fn find_current(tiles: &Vec<Tile>) -> (found: Option<usize>)
    ensures
        match found {
            Some(i) => is_first_current(tile_views(tiles@), i as int),
            None => no_current(tile_views(tiles@)),
        },
{
    let mut i: usize = 0;
    while i < tiles.len()
        invariant
            i <= tiles@.len(),
            forall|j: int| 0 <= j < i ==> !(#[trigger] tile_views(tiles@)[j]).current,
        decreases tiles@.len() - i,
    {
        if tiles[i].current {
            return Some(i);
        }
        i += 1;
    }
    None
}

/// The tiles after the cost of the current tile was set to `value`. With no
/// current tile nothing changes.
pub open spec fn after_cost_set(tiles: Seq<TileView>, value: int) -> Seq<TileView> {
    if no_current(tiles) {
        tiles
    } else {
        let i = current_tile(tiles);
        tiles.update(i, TileView { cost: saturated_cost(value), ..tiles[i] })
    }
}

/// The tiles after `delta` was added to the cost of the current tile. With no
/// current tile nothing changes.
pub open spec fn after_cost_raised(tiles: Seq<TileView>, delta: int) -> Seq<TileView> {
    if no_current(tiles) {
        tiles
    } else {
        let i = current_tile(tiles);
        tiles.update(i, TileView { cost: saturated_cost(tiles[i].cost + delta), ..tiles[i] })
    }
}

/// The tiles after the current tile was erased: `delta` is added to its cost,
/// it loses its effect, and its description says so. With no current tile
/// nothing changes.
pub open spec fn after_erase(tiles: Seq<TileView>, delta: int) -> Seq<TileView> {
    if no_current(tiles) {
        tiles
    } else {
        let i = current_tile(tiles);
        tiles.update(
            i,
            TileView {
                cost: saturated_cost(tiles[i].cost + delta),
                tile_type: TileType::Plain,
                description: "Erased!"@,
                ..tiles[i]
            },
        )
    }
}

/// Sets the cost of the current tile to `value`, and tells which tile that
/// was.
pub fn set_current_cost(tiles: &mut Vec<Tile>, value: i32) -> (changed: Option<usize>)
    ensures
        tile_views(final(tiles)@) == after_cost_set(tile_views(old(tiles)@), value as int),
        match changed {
            Some(i) => is_first_current(tile_views(old(tiles)@), i as int) && current_tile(
                tile_views(old(tiles)@),
            ) == i,
            None => no_current(tile_views(old(tiles)@)),
        },
{
    let found = find_current(tiles);
    match found {
        Some(i) => {
            proof {
                lemma_first_current_is_unique(tile_views(tiles@), i as int);
            }
            tiles[i].cost = saturate_cost(value as i64);
            assert(tile_views(tiles@) =~= after_cost_set(tile_views(old(tiles)@), value as int));
        },
        None => {},
    }
    found
}

/// Adds `delta` to the cost of the current tile, and tells which tile that
/// was.
pub fn raise_current_cost(tiles: &mut Vec<Tile>, delta: i32) -> (changed: Option<usize>)
    ensures
        tile_views(final(tiles)@) == after_cost_raised(tile_views(old(tiles)@), delta as int),
        match changed {
            Some(i) => is_first_current(tile_views(old(tiles)@), i as int) && current_tile(
                tile_views(old(tiles)@),
            ) == i,
            None => no_current(tile_views(old(tiles)@)),
        },
{
    let found = find_current(tiles);
    match found {
        Some(i) => {
            proof {
                lemma_first_current_is_unique(tile_views(tiles@), i as int);
            }
            let cost = saturate_cost(tiles[i].cost as i64 + delta as i64);
            tiles[i].cost = cost;
            assert(tile_views(tiles@) =~= after_cost_raised(
                tile_views(old(tiles)@),
                delta as int,
            ));
        },
        None => {},
    }
    found
}

/// Erases the current tile, and tells which tile that was.
pub fn erase_current(tiles: &mut Vec<Tile>, delta: i32) -> (changed: Option<usize>)
    ensures
        tile_views(final(tiles)@) == after_erase(tile_views(old(tiles)@), delta as int),
        match changed {
            Some(i) => is_first_current(tile_views(old(tiles)@), i as int) && current_tile(
                tile_views(old(tiles)@),
            ) == i,
            None => no_current(tile_views(old(tiles)@)),
        },
{
    let found = find_current(tiles);
    match found {
        Some(i) => {
            proof {
                lemma_first_current_is_unique(tile_views(tiles@), i as int);
            }
            let cost = saturate_cost(tiles[i].cost as i64 + delta as i64);
            tiles[i].cost = cost;
            tiles[i].tile_type = TileType::Plain;
            tiles[i].description = "Erased!".to_owned();
            assert(tile_views(tiles@) =~= after_erase(tile_views(old(tiles)@), delta as int));
        },
        None => {},
    }
    found
}

/// Whether the movement points pay for the tile. The comparison reads both
/// values and changes neither.
pub fn cost_check(movement_points: &MovementPoints, tile: &Tile) -> (met: bool)
    ensures
        met == (movement_points.0 >= tile.cost),
{
    movement_points.0 as i64 >= tile.cost as i64
}

/// The tiles on which the token has stood, oldest first.
#[derive(Clone, Debug, PartialEq, Eq)]
pub struct VisitedTiles(pub Vec<u32>);

/// The message that the board has been laid out.
#[derive(Clone, Copy, Debug, PartialEq, Eq, Structural)]
pub struct TileSetupComplete;

/// The message that the player has chosen the tile with this number.
#[derive(Clone, Copy, Debug, PartialEq, Eq, Structural)]
pub struct TileSelected(pub u32);

/// The message that the player has closed the tile that lies revealed.
#[derive(Clone, Copy, Debug, PartialEq, Eq, Structural)]
pub struct TileSelectedBlockerClose;

/// The message that a tile has been closed and cards are to be drawn.
#[derive(Clone, Copy, Debug, PartialEq, Eq, Structural)]
pub struct TileClosedEvent;

/// What entering a tile asks of the counters.
#[derive(Clone, Copy, Debug, PartialEq, Eq, Structural)]
pub enum TileSignal {
    Nothing,
    MovementPoints(MovementPointsUpdateEvent),
    Turns(TurnsUpdateEvent),
}

/// How a turn ends.
#[derive(Clone, Copy, Debug, PartialEq, Eq, Structural)]
pub enum TurnOutcome {
    /// No turn is left: the game is lost.
    Loss,
    /// The goal is reached and paid for: the game is won.
    Win,
    /// The current tile is paid for: the player chooses the next tile.
    Traverse,
    /// The current tile is not paid for: the player draws again.
    Retry(TileClosedEvent),
}

/// The board of a game.
#[derive(Clone, Debug, PartialEq, Eq)]
pub struct Board {
    /// The tiles, each at the place that its number names.
    pub tiles: Vec<Tile>,
    /// The numbers of the tiles that are open to the player's choice.
    pub selectable: Vec<u32>,
    /// The number of the tile that lies revealed, if one does.
    pub revealed: Option<u32>,
    /// The tiles on which the token has stood.
    pub visited: VisitedTiles,
}

/// Whether the tile at `c` is marked as current, and no other.
pub open spec fn is_sole_current(tiles: Seq<TileView>, c: int) -> bool {
    &&& 0 <= c < tiles.len()
    &&& forall|j: int| 0 <= j < tiles.len() ==> ((#[trigger] tiles[j]).current <==> j == c)
}

/// Whether every tile lies at the place that its number names.
pub open spec fn is_numbered(tiles: Seq<TileView>) -> bool {
    forall|j: int| 0 <= j < tiles.len() ==> (#[trigger] tiles[j]).number == j
}

/// The tiles after the token has entered the tile at `entered`: that tile is
/// the current one, and no other.
pub open spec fn after_entering(tiles: Seq<TileView>, entered: int) -> Seq<TileView> {
    Seq::new(tiles.len(), |j: int| TileView { current: j == entered, ..tiles[j] })
}

/// What entering the tile asks of the counters.
pub open spec fn effect_of(tile: TileView) -> TileSignal {
    match tile.tile_type {
        TileType::MovementPointsUpdate => TileSignal::MovementPoints(
            MovementPointsUpdateEvent(tile.value),
        ),
        TileType::TurnUpdate => TileSignal::Turns(TurnsUpdateEvent(tile.value)),
        _ => TileSignal::Nothing,
    }
}

/// How a turn ends that leaves `turns` turns, with `points` movement points
/// held against the cost of the current tile, which has the number `number`.
/// A lost game is lost whatever else holds.
pub open spec fn turn_outcome(turns: int, points: int, cost: int, number: int) -> TurnOutcome {
    if turns <= 0 {
        TurnOutcome::Loss
    } else if points >= cost {
        if number == GOAL_TILE {
            TurnOutcome::Win
        } else {
            TurnOutcome::Traverse
        }
    } else {
        TurnOutcome::Retry(TileClosedEvent)
    }
}

impl Board {
    /// The place of the current tile.
    pub open spec fn current_index(&self) -> int {
        current_tile(tile_views(self.tiles@))
    }

    /// The board has eleven tiles, each at the place that its number names;
    /// exactly one of them is current, and it is the one that was visited
    /// last; only tiles of the board are open to choice or revealed.
    pub open spec fn wf(&self) -> bool {
        &&& self.tiles@.len() == BOARD_SLOTS
        &&& is_numbered(tile_views(self.tiles@))
        &&& is_sole_current(tile_views(self.tiles@), self.current_index())
        &&& self.visited.0@.len() > 0
        &&& self.visited.0@.last() == self.current_index()
        &&& forall|k: int|
            0 <= k < self.selectable@.len() ==> (#[trigger] self.selectable@[k]) < BOARD_SLOTS
        &&& match self.revealed {
            Some(n) => n < BOARD_SLOTS,
            None => true,
        }
    }

    /// A board of the given tiles at the start of a game: the token stands on
    /// the start tile, and nothing is revealed or open to choice yet. `None`
    /// where the tiles are not those of a board laid out for a start.
    pub fn new(tiles: Vec<Tile>) -> (board: Option<Board>)
        ensures
            match board {
                Some(b) => b.wf() && b.tiles == tiles && b.selectable@.len() == 0 && b.revealed is None
                    && b.visited.0@ == seq![START_TILE] && b.current_index() == START_TILE,
                None => !(tiles@.len() == BOARD_SLOTS && is_numbered(tile_views(tiles@))
                    && is_sole_current(tile_views(tiles@), START_TILE as int)),
            },
    {
        if tiles.len() != BOARD_SLOTS {
            return None;
        }
        let mut k: usize = 0;
        while k < tiles.len()
            invariant
                k <= tiles@.len() == BOARD_SLOTS,
                forall|j: int|
                    0 <= j < k ==> (#[trigger] tile_views(tiles@)[j]).number == j && (tile_views(
                        tiles@,
                    )[j].current <==> j == START_TILE),
            decreases tiles@.len() - k,
        {
            if tiles[k].number != k as u32 || tiles[k].current != (k == 0) {
                assert(!(tile_views(tiles@)[k as int].number == k && (tile_views(
                    tiles@,
                )[k as int].current <==> k == START_TILE)));
                return None;
            }
            k += 1;
        }
        proof {
            assert(is_first_current(tile_views(tiles@), 0));
            lemma_first_current_is_unique(tile_views(tiles@), 0);
        }
        let mut visited: Vec<u32> = Vec::new();
        visited.push(START_TILE);
        Some(Board { tiles, selectable: Vec::new(), revealed: None, visited: VisitedTiles(visited) })
    }

    /// Whether the board is well formed.
    pub fn is_valid(&self) -> (ok: bool)
        ensures
            ok == self.wf(),
    {
        if self.tiles.len() != BOARD_SLOTS {
            return false;
        }
        let mut k: usize = 0;
        while k < self.tiles.len()
            invariant
                k <= self.tiles@.len() == BOARD_SLOTS,
                forall|j: int| 0 <= j < k ==> (#[trigger] tile_views(self.tiles@)[j]).number == j,
            decreases self.tiles@.len() - k,
        {
            if self.tiles[k].number != k as u32 {
                assert(tile_views(self.tiles@)[k as int].number != k);
                return false;
            }
            k += 1;
        }
        let current = match find_current(&self.tiles) {
            Some(c) => c,
            None => {
                proof {
                    let c = self.current_index();
                    if is_sole_current(tile_views(self.tiles@), c) {
                        assert(tile_views(self.tiles@)[c].current);
                    }
                }
                return false;
            },
        };
        proof {
            lemma_first_current_is_unique(tile_views(self.tiles@), current as int);
        }
        let mut j: usize = current + 1;
        while j < self.tiles.len()
            invariant
                current < j <= self.tiles@.len(),
                is_first_current(tile_views(self.tiles@), current as int),
                forall|i: int| current < i < j ==> !(#[trigger] tile_views(self.tiles@)[i]).current,
            decreases self.tiles@.len() - j,
        {
            if self.tiles[j].current {
                assert(tile_views(self.tiles@)[j as int].current);
                return false;
            }
            j += 1;
        }
        assert(is_sole_current(tile_views(self.tiles@), current as int));
        if self.visited.0.len() == 0 || self.visited.0[self.visited.0.len() - 1] != current as u32 {
            return false;
        }
        let mut k: usize = 0;
        while k < self.selectable.len()
            invariant
                k <= self.selectable@.len(),
                forall|i: int| 0 <= i < k ==> (#[trigger] self.selectable@[i]) < BOARD_SLOTS,
            decreases self.selectable@.len() - k,
        {
            if self.selectable[k] as usize >= BOARD_SLOTS {
                return false;
            }
            k += 1;
        }
        match self.revealed {
            Some(n) => (n as usize) < BOARD_SLOTS,
            None => true,
        }
    }

    /// The place of the current tile.
    pub fn current(&self) -> (c: usize)
        requires
            self.wf(),
        ensures
            c == self.current_index(),
            c < BOARD_SLOTS,
    {
        let found = find_current(&self.tiles);
        match found {
            Some(c) => {
                proof {
                    lemma_first_current_is_unique(tile_views(self.tiles@), c as int);
                }
                c
            },
            None => {
                proof {
                    let c = self.current_index();
                    assert(tile_views(self.tiles@)[c].current);
                }
                0
            },
        }
    }

    /// Whether the tile with this number still lies covered: a tile is
    /// uncovered when it is revealed, and stays so once the token has stood
    /// on it.
    pub fn is_covered(&self, number: u32) -> (covered: bool)
        ensures
            covered == (self.revealed != Some(number) && !self.visited.0@.contains(number)),
    {
        match self.revealed {
            Some(n) => {
                if n == number {
                    return false;
                }
            },
            None => {},
        }
        let mut k: usize = 0;
        while k < self.visited.0.len()
            invariant
                k <= self.visited.0@.len(),
                self.revealed != Some(number),
                forall|j: int| 0 <= j < k ==> self.visited.0@[j] != number,
            decreases self.visited.0@.len() - k,
        {
            if self.visited.0[k] == number {
                assert(self.visited.0@[k as int] == number);
                return false;
            }
            k += 1;
        }
        true
    }

    /// Whether the player may choose the tile with this number now.
    pub fn is_selectable(&self, number: u32) -> (ok: bool)
        ensures
            ok == (self.revealed is None && self.selectable@.contains(number)),
    {
        if self.revealed.is_some() {
            return false;
        }
        let mut k: usize = 0;
        while k < self.selectable.len()
            invariant
                k <= self.selectable@.len(),
                self.revealed is None,
                forall|j: int| 0 <= j < k ==> self.selectable@[j] != number,
            decreases self.selectable@.len() - k,
        {
            if self.selectable[k] == number {
                assert(self.selectable@[k as int] == number);
                return true;
            }
            k += 1;
        }
        false
    }
}

/// A card that changes the current tile changes neither the numbers of the
/// tiles nor which of them is current.
pub proof fn lemma_effects_keep_layout(before: Seq<TileView>, after: Seq<TileView>, value: int)
    requires
        after == after_cost_set(before, value) || after == after_cost_raised(before, value)
            || after == after_erase(before, value) || after == before,
    ensures
        after.len() == before.len(),
        forall|j: int|
            0 <= j < before.len() ==> (#[trigger] after[j]).number == before[j].number
                && after[j].current == before[j].current,
        current_tile(after) == current_tile(before),
        is_numbered(before) ==> is_numbered(after),
        forall|c: int| is_sole_current(before, c) ==> is_sole_current(after, c),
{
    if !no_current(before) {
        let c = current_tile(before);
        lemma_first_current_exists(before);
        assert(is_first_current(after, c));
        lemma_first_current_is_unique(after, c);
    } else {
        assert(after =~= before);
    }
}

/// The board has been laid out: the counters are told to show themselves,
/// and the current tile is opened to choice and chosen on the player's
/// behalf.
pub fn on_tile_setup_complete(board: &mut Board, event: TileSetupComplete) -> (out: (
    MovementPointsUpdateEvent,
    TurnsUpdateEvent,
    TileSelected,
))
    requires
        old(board).wf(),
    ensures
        out.0 == MovementPointsUpdateEvent(0),
        out.1 == TurnsUpdateEvent(0),
        out.2 == TileSelected(old(board).current_index() as u32),
        final(board).selectable@ == seq![old(board).current_index() as u32],
        final(board).tiles == old(board).tiles,
        final(board).revealed == old(board).revealed,
        final(board).visited == old(board).visited,
        final(board).wf(),
{
    let current = board.current() as u32;
    let mut selectable: Vec<u32> = Vec::new();
    selectable.push(current);
    board.selectable = selectable;
    (MovementPointsUpdateEvent(0), TurnsUpdateEvent(0), TileSelected(current))
}

/// The player has chosen a tile: it is revealed and waits to be closed.
/// Choosing a tile that is not open to choice, or a tile while another lies
/// revealed, is not allowed.
pub fn on_tile_selected(board: &mut Board, event: TileSelected)
    requires
        old(board).wf(),
        old(board).revealed is None,
        old(board).selectable@.contains(event.0),
    ensures
        final(board).revealed == Some(event.0),
        final(board).tiles == old(board).tiles,
        final(board).selectable == old(board).selectable,
        final(board).visited == old(board).visited,
        final(board).wf(),
{
    board.revealed = Some(event.0);
}

/// The player has closed the revealed tile: the token enters it. The tile
/// becomes the current one, and where it was not current before, it is
/// written to the visited tiles and its effect is sent to the counters. With
/// no tile revealed nothing changes. Cards are to be drawn in each case.
pub fn tile_selected_close(board: &mut Board, event: TileSelectedBlockerClose) -> (out: (
    TileSignal,
    TileClosedEvent,
))
    requires
        old(board).wf(),
    ensures
        final(board).revealed is None,
        final(board).selectable == old(board).selectable,
        match old(board).revealed {
            Some(n) => {
                &&& tile_views(final(board).tiles@) == after_entering(
                    tile_views(old(board).tiles@),
                    n as int,
                )
                &&& final(board).current_index() == n
                &&& if old(board).current_index() == n {
                    final(board).visited.0@ == old(board).visited.0@ && out.0 == TileSignal::Nothing
                } else {
                    final(board).visited.0@ == old(board).visited.0@.push(n) && out.0 == effect_of(
                        old(board).tiles@[n as int]@,
                    )
                }
            },
            None => final(board).tiles == old(board).tiles && final(board).visited == old(
                board,
            ).visited && out.0 == TileSignal::Nothing,
        },
        final(board).wf(),
{
    let revealed = board.revealed;
    board.revealed = None;
    match revealed {
        Some(n) => {
            let entered = n as usize;
            let was_current = board.tiles[entered].current;
            let signal = if was_current {
                TileSignal::Nothing
            } else {
                match board.tiles[entered].tile_type {
                    TileType::MovementPointsUpdate => TileSignal::MovementPoints(
                        MovementPointsUpdateEvent(board.tiles[entered].value),
                    ),
                    TileType::TurnUpdate => TileSignal::Turns(
                        TurnsUpdateEvent(board.tiles[entered].value),
                    ),
                    _ => TileSignal::Nothing,
                }
            };
            let mut k: usize = 0;
            while k < board.tiles.len()
                invariant
                    k <= board.tiles@.len() == old(board).tiles@.len(),
                    board.selectable == old(board).selectable,
                    board.visited == old(board).visited,
                    board.revealed is None,
                    forall|j: int|
                        0 <= j < k ==> (#[trigger] board.tiles@[j])@ == after_entering(
                            tile_views(old(board).tiles@),
                            entered as int,
                        )[j],
                    forall|j: int|
                        k <= j < board.tiles@.len() ==> #[trigger] board.tiles@[j] == old(
                            board,
                        ).tiles@[j],
                decreases board.tiles@.len() - k,
            {
                board.tiles[k].current = k == entered;
                k += 1;
            }
            if !was_current {
                board.visited.0.push(n);
            }
            proof {
                let after = tile_views(board.tiles@);
                assert(after =~= after_entering(tile_views(old(board).tiles@), n as int));
                assert(is_first_current(after, n as int));
                lemma_first_current_is_unique(after, n as int);
                let c = old(board).current_index();
                assert(tile_views(old(board).tiles@)[n as int].current <==> n == c);
            }
            (signal, TileClosedEvent)
        },
        None => (TileSignal::Nothing, TileClosedEvent),
    }
}

/// The hand has been played: the turn ends. One turn is taken off the
/// countdown first. If none is left then, the game is lost, whatever the
/// board shows. Otherwise the movement points are held against the cost of
/// the current tile: if they pay for it, the game is won on the goal, and
/// elsewhere the tiles that can be entered from the current one are opened to
/// the player's choice; if they do not, cards are drawn again.
pub fn on_turn_ended(
    board: &mut Board,
    movement_points: &MovementPoints,
    turns_left: &mut TurnsLeft,
    event: MovementCardsPlayedEvent,
) -> (outcome: TurnOutcome)
    requires
        old(board).wf(),
    ensures
        final(turns_left).0 == counter_after(old(turns_left).0 as int, seq![-1int]),
        outcome == turn_outcome(
            final(turns_left).0 as int,
            movement_points.0 as int,
            old(board).tiles@[old(board).current_index()].cost as int,
            old(board).current_index(),
        ),
        outcome is Loss <==> final(turns_left).0 <= 0,
        outcome is Win <==> final(turns_left).0 > 0 && old(board).current_index() == GOAL_TILE
            && movement_points.0 >= old(board).tiles@[old(board).current_index()].cost,
        final(board).selectable@ == if outcome is Traverse {
            neighbours_of(old(board).current_index() as u32)
        } else {
            old(board).selectable@
        },
        final(board).tiles == old(board).tiles,
        final(board).revealed == old(board).revealed,
        final(board).visited == old(board).visited,
        final(board).wf(),
{
    turns_left.apply_turn_delta(-1);
    if turns_left.0 <= 0 {
        return TurnOutcome::Loss;
    }
    let current = board.current();
    if !cost_check(movement_points, &board.tiles[current]) {
        return TurnOutcome::Retry(TileClosedEvent);
    }
    let number = board.tiles[current].number;
    assert(number == current) by {
        assert(tile_views(board.tiles@)[current as int].number == current);
    }
    if number == GOAL_TILE {
        return TurnOutcome::Win;
    }
    board.selectable = get_neighbours(number);
    proof {
        lemma_neighbours_are_on_the_board(number);
    }
    TurnOutcome::Traverse
}

/// Every tile that can be entered lies on the board, and from each tile but
/// the goal two to five tiles can be entered.
pub proof fn lemma_neighbours_are_on_the_board(index: u32)
    ensures
        forall|k: int|
            0 <= k < neighbours_of(index).len() ==> (#[trigger] neighbours_of(index)[k])
                < BOARD_SLOTS,
        index < GOAL_TILE ==> 2 <= neighbours_of(index).len() <= 5,
{
}

/// The graph is directed: the first tile leads to the second, and the second
/// does not lead back.
pub proof fn graph_is_directed()
    ensures
        neighbours_of(0).contains(1),
        !neighbours_of(1).contains(0),
{
    assert(neighbours_of(0)[0] == 1);
}

/// The game is lost exactly when no turn is left, whatever the board shows;
/// it is won exactly when a turn is left, the token stands on the goal, and
/// the movement points pay for it.
pub proof fn win_and_loss(turns: int, points: int, cost: int, number: int)
    ensures
        turn_outcome(turns, points, cost, number) is Loss <==> turns <= 0,
        turn_outcome(turns, points, cost, number) is Win <==> turns > 0 && number == GOAL_TILE
            && points >= cost,
        turn_outcome(turns, points, cost, number) is Traverse <==> turns > 0 && number
            != GOAL_TILE && points >= cost,
        turn_outcome(turns, points, cost, number) is Retry <==> turns > 0 && points < cost,
{
}

} // verus!
