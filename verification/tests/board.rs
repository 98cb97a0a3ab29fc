use tile_trek::movement::{MovementPoints, MovementPointsUpdateEvent};
use tile_trek::tiles::{
    cost_check, erase_current, find_current, generate_tiles, get_neighbours, raise_current_cost,
    set_current_cost, setup_tiles, setup_tiles_with, Board, Tile, TileType, BOARD_SLOTS, GOAL_TILE,
    POOL_SIZE, START_TILE,
};

fn plain(number: u32, cost: u32, current: bool) -> Tile {
    Tile {
        cost,
        description: String::from("plain"),
        number,
        tile_type: TileType::Plain,
        value: 0,
        duration: 0,
        current,
    }
}

fn plain_tiles(current: u32) -> Vec<Tile> {
    (0..11).map(|n| plain(n, n + 1, n == current)).collect()
}

#[test]
fn neighbours_follow_the_table() {
    assert_eq!(get_neighbours(0), vec![1, 2, 3]);
    assert_eq!(get_neighbours(1), vec![2, 4, 5]);
    assert_eq!(get_neighbours(2), vec![1, 3, 4, 5, 6]);
    assert_eq!(get_neighbours(3), vec![2, 5, 6]);
    assert_eq!(get_neighbours(4), vec![5, 7, 8]);
    assert_eq!(get_neighbours(5), vec![4, 6, 7, 8, 9]);
    assert_eq!(get_neighbours(6), vec![5, 8, 9]);
    assert_eq!(get_neighbours(7), vec![8, 10]);
    assert_eq!(get_neighbours(8), vec![7, 9, 10]);
    assert_eq!(get_neighbours(9), vec![8, 10]);
}

#[test]
fn goal_and_numbers_past_it_lead_to_the_start() {
    assert_eq!(get_neighbours(GOAL_TILE), vec![START_TILE]);
    assert_eq!(get_neighbours(11), vec![0]);
    assert_eq!(get_neighbours(u32::MAX), vec![0]);
}

#[test]
fn graph_is_directed() {
    assert!(get_neighbours(0).contains(&1));
    assert!(!get_neighbours(1).contains(&0));
    assert!(get_neighbours(7).contains(&10));
    assert!(!get_neighbours(10).contains(&7));
}

#[test]
fn every_tile_but_the_goal_has_two_to_five_neighbours_on_the_board() {
    for index in 0..10 {
        let out = get_neighbours(index);
        assert!(out.len() >= 2 && out.len() <= 5);
        assert!(out.iter().all(|n| (*n as usize) < BOARD_SLOTS));
    }
}

#[test]
fn pool_holds_the_tile_definitions() {
    let pool = generate_tiles();
    assert_eq!(pool.len(), POOL_SIZE);
    assert_eq!(pool.len(), 24);
    let costs: Vec<u32> = pool.iter().map(|t| t.cost).collect();
    assert_eq!(
        costs,
        vec![1, 1, 1, 2, 2, 2, 3, 3, 4, 4, 4, 5, 5, 5, 6, 6, 7, 7, 7, 8, 8, 9, 9, 9]
    );
    assert!(pool.iter().all(|t| t.number == 0 && !t.current));
    assert_eq!(
        pool[0],
        Tile {
            cost: 1,
            description: String::from(
                "You find ruins with a shiny object. \"Stop!\" You touch it and get cursed. Lose 2 movement points each turn."
            ),
            number: 0,
            tile_type: TileType::MovementPointsUpdate,
            value: -2,
            duration: -1,
            current: false,
        }
    );
    assert_eq!(pool[3].description, "River! You have to swim across, lose 1 turn.");
    assert_eq!(pool[3].tile_type, TileType::TurnUpdate);
    assert_eq!(pool[3].value, -1);
    assert_eq!(pool[4].tile_type, TileType::Blessing);
    assert_eq!(pool[4].value, 0);
    assert_eq!(pool[10].tile_type, TileType::Blessing);
    assert_eq!(pool[10].value, -1);
    assert_eq!(pool[5].description, "Cool breeze. Adventure time.");
    assert_eq!(pool[5].tile_type, TileType::Plain);
    assert_eq!(pool[6].description, "Snake bite. You are poisoned. Lose 1 movement point for 2 turns.");
    assert_eq!((pool[6].value, pool[6].duration), (-1, 2));
    assert_eq!(
        pool[13].description,
        "You befriend an elephant. You ride on its back. Gain 2 movement points."
    );
    assert_eq!((pool[13].cost, pool[13].value), (5, 2));
    assert_eq!(pool[23].cost, 9);
    assert_eq!(pool[23].tile_type, TileType::Plain);
}

#[test]
fn pool_definitions_are_distinct_and_cover_every_cost() {
    let pool = generate_tiles();
    for i in 0..pool.len() {
        for j in (i + 1)..pool.len() {
            assert_ne!(pool[i], pool[j]);
        }
    }
    for cost in 1..=9 {
        assert!(pool.iter().any(|t| t.cost == cost));
    }
    assert!(pool.iter().all(|t| t.cost >= 1 && t.cost <= 9));
}

#[test]
fn board_is_laid_out_from_the_picks() {
    let picks: Vec<usize> = vec![23, 0, 0, 0, 0, 0, 0, 0, 0, 0, 13];
    let board = setup_tiles_with(&picks).expect("the picks can be made");
    let pool = generate_tiles();
    assert_eq!(board.len(), 11);
    // the first pick takes the last definition, the next nine the first nine,
    // and the last pick the last of the fourteen that are left
    let expected = [23usize, 0, 1, 2, 3, 4, 5, 6, 7, 8, 22];
    for (k, tile) in board.iter().enumerate() {
        let from = &pool[expected[k]];
        assert_eq!(tile.number, k as u32);
        assert_eq!(tile.current, k == 0);
        assert_eq!(tile.cost, from.cost);
        assert_eq!(tile.description, from.description);
        assert_eq!(tile.tile_type, from.tile_type);
        assert_eq!(tile.value, from.value);
        assert_eq!(tile.duration, from.duration);
    }
}

#[test]
fn same_picks_give_the_same_board() {
    let picks: Vec<usize> = vec![5, 7, 21, 3, 0, 18, 2, 2, 9, 14, 1];
    assert!(setup_tiles_with(&picks).is_some());
    assert_eq!(setup_tiles_with(&picks), setup_tiles_with(&picks));
}

#[test]
fn board_is_not_laid_out_from_picks_that_cannot_be_made() {
    assert_eq!(setup_tiles_with(&vec![0; 10]), None);
    assert_eq!(setup_tiles_with(&vec![0; 12]), None);
    assert_eq!(setup_tiles_with(&Vec::new()), None);
    assert_eq!(setup_tiles_with(&vec![24, 0, 0, 0, 0, 0, 0, 0, 0, 0, 0]), None);
    assert_eq!(setup_tiles_with(&vec![0, 23, 0, 0, 0, 0, 0, 0, 0, 0, 0]), None);
    assert_eq!(setup_tiles_with(&vec![0, 0, 0, 0, 0, 0, 0, 0, 0, 0, 14]), None);
    assert!(setup_tiles_with(&vec![23, 22, 21, 20, 19, 18, 17, 16, 15, 14, 13]).is_some());
    assert!(setup_tiles_with(&vec![0; 11]).is_some());
}

#[test]
fn random_board_is_sampled_without_replacement() {
    for _ in 0..200 {
        let (board, picks) = setup_tiles();
        assert_eq!(board.len(), 11);
        assert_eq!(picks.len(), 11);
        for (k, pick) in picks.iter().enumerate() {
            assert!(*pick < 24 - k);
        }
        assert_eq!(Some(board.clone()), setup_tiles_with(&picks));
        let mut pool = generate_tiles();
        for (k, tile) in board.iter().enumerate() {
            assert_eq!(tile.number, k as u32);
            assert_eq!(tile.current, k == 0);
            let at = pool
                .iter()
                .position(|p| {
                    p.cost == tile.cost
                        && p.description == tile.description
                        && p.tile_type == tile.tile_type
                        && p.value == tile.value
                        && p.duration == tile.duration
                })
                .expect("every tile of the board comes from what is left of the pool");
            pool.remove(at);
        }
        assert_eq!(pool.len(), 13);
    }
}

#[test]
fn random_boards_differ() {
    let (first, _) = setup_tiles();
    let mut differs = false;
    for _ in 0..50 {
        let (other, _) = setup_tiles();
        if other != first {
            differs = true;
        }
    }
    assert!(differs);
}

#[test]
fn cost_check_is_a_plain_comparison() {
    let tile = plain(0, 5, true);
    assert!(cost_check(&MovementPoints(5), &tile));
    assert!(cost_check(&MovementPoints(6), &tile));
    assert!(!cost_check(&MovementPoints(4), &tile));
    assert!(!cost_check(&MovementPoints(-1), &tile));
    assert!(cost_check(&MovementPoints(0), &plain(0, 0, true)));
    assert!(!cost_check(&MovementPoints(-1), &plain(0, 0, true)));
    assert!(cost_check(&MovementPoints(i32::MAX), &plain(0, i32::MAX as u32, true)));
    assert!(!cost_check(&MovementPoints(i32::MAX), &plain(0, i32::MAX as u32 + 1, true)));
    assert!(!cost_check(&MovementPoints(i32::MAX), &plain(0, u32::MAX, true)));
}

#[test]
fn cost_check_changes_nothing() {
    let points = MovementPoints(5);
    let tile = plain(3, 1, true);
    let before = tile.clone();
    assert!(cost_check(&points, &tile));
    assert!(cost_check(&points, &tile));
    assert_eq!(points, MovementPoints(5));
    assert_eq!(tile, before);
}

#[test]
fn cost_of_one_is_met_by_two_cards_worth_five() {
    let mut points = MovementPoints::new();
    assert_eq!(points, MovementPoints(0));
    tile_trek::movement::update_movement_points(
        &mut points,
        &vec![MovementPointsUpdateEvent(2), MovementPointsUpdateEvent(3)],
    );
    assert_eq!(points, MovementPoints(5));
    assert!(cost_check(&points, &plain(0, 1, true)));
}

#[test]
fn erase_raises_the_cost_and_takes_the_effect() {
    let mut tiles = plain_tiles(4);
    tiles[4].cost = 4;
    tiles[4].tile_type = TileType::MovementPointsUpdate;
    tiles[4].value = -2;
    let before = tiles.clone();
    assert_eq!(erase_current(&mut tiles, 3), Some(4));
    assert_eq!(tiles[4].cost, 7);
    assert_eq!(tiles[4].tile_type, TileType::Plain);
    assert_eq!(tiles[4].description, "Erased!");
    assert_eq!(tiles[4].number, 4);
    assert!(tiles[4].current);
    assert_eq!(tiles[4].value, -2);
    for k in 0..11 {
        if k != 4 {
            assert_eq!(tiles[k], before[k]);
        }
    }
}

#[test]
fn cost_is_set_and_never_falls_below_zero() {
    let mut tiles = plain_tiles(2);
    assert_eq!(set_current_cost(&mut tiles, 10), Some(2));
    assert_eq!(tiles[2].cost, 10);
    assert_eq!(set_current_cost(&mut tiles, 0), Some(2));
    assert_eq!(tiles[2].cost, 0);
    assert_eq!(set_current_cost(&mut tiles, -1), Some(2));
    assert_eq!(tiles[2].cost, 0);
    assert_eq!(set_current_cost(&mut tiles, i32::MIN), Some(2));
    assert_eq!(tiles[2].cost, 0);
    assert_eq!(set_current_cost(&mut tiles, i32::MAX), Some(2));
    assert_eq!(tiles[2].cost, i32::MAX as u32);
    assert_eq!(tiles[1], plain(1, 2, false));
}

#[test]
fn cost_is_raised_and_stops_at_both_ends() {
    let mut tiles = plain_tiles(2);
    assert_eq!(tiles[2].cost, 3);
    assert_eq!(raise_current_cost(&mut tiles, 1), Some(2));
    assert_eq!(tiles[2].cost, 4);
    assert_eq!(raise_current_cost(&mut tiles, -3), Some(2));
    assert_eq!(tiles[2].cost, 1);
    assert_eq!(raise_current_cost(&mut tiles, -2), Some(2));
    assert_eq!(tiles[2].cost, 0);
    tiles[2].cost = u32::MAX - 1;
    assert_eq!(raise_current_cost(&mut tiles, 5), Some(2));
    assert_eq!(tiles[2].cost, u32::MAX);
    assert_eq!(erase_current(&mut tiles, 1), Some(2));
    assert_eq!(tiles[2].cost, u32::MAX);
}

#[test]
fn without_a_current_tile_nothing_changes() {
    let mut tiles = plain_tiles(99);
    let before = tiles.clone();
    assert_eq!(find_current(&tiles), None);
    assert_eq!(set_current_cost(&mut tiles, 4), None);
    assert_eq!(raise_current_cost(&mut tiles, 4), None);
    assert_eq!(erase_current(&mut tiles, 4), None);
    assert_eq!(tiles, before);
}

#[test]
fn only_the_first_current_tile_is_changed() {
    let mut tiles = plain_tiles(3);
    tiles[7].current = true;
    assert_eq!(find_current(&tiles), Some(3));
    assert_eq!(set_current_cost(&mut tiles, 50), Some(3));
    assert_eq!(tiles[3].cost, 50);
    assert_eq!(tiles[7].cost, 8);
}

#[test]
fn board_starts_on_the_start_tile() {
    let board = Board::new(plain_tiles(0)).expect("a board laid out for a start");
    assert_eq!(board.current(), 0);
    assert_eq!(board.visited.0, vec![0]);
    assert_eq!(board.revealed, None);
    assert!(board.selectable.is_empty());
    assert!(!board.is_selectable(0));
}

#[test]
fn board_refuses_tiles_that_are_not_laid_out_for_a_start() {
    assert_eq!(Board::new(plain_tiles(1)), None);
    assert_eq!(Board::new(plain_tiles(99)), None);
    let mut short = plain_tiles(0);
    short.pop();
    assert_eq!(Board::new(short), None);
    let mut long = plain_tiles(0);
    long.push(plain(11, 1, false));
    assert_eq!(Board::new(long), None);
    let mut misnumbered = plain_tiles(0);
    misnumbered[5].number = 6;
    assert_eq!(Board::new(misnumbered), None);
    let mut two = plain_tiles(0);
    two[10].current = true;
    assert_eq!(Board::new(two), None);
    assert_eq!(Board::new(generate_tiles()), None);
    assert_eq!(Board::new(Vec::new()), None);
}

#[test]
fn default_tile_is_plain_and_free() {
    let tile = Tile::default();
    assert_eq!(tile, plain_free());
    assert_eq!(TileType::default(), TileType::Plain);
}

fn plain_free() -> Tile {
    Tile {
        cost: 0,
        description: String::new(),
        number: 0,
        tile_type: TileType::Plain,
        value: 0,
        duration: 0,
        current: false,
    }
}
