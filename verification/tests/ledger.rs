use tile_trek::ledger::{apply_delta, lowered, multiplied, to_signed, to_unsigned};
use tile_trek::movement::{
    update_movement_points, MovementPoints, MovementPointsUpdateEvent, MOVEMENT_POINTS_INIT_VALUE,
};
use tile_trek::turns::{update_turns_left, TurnsLeft, TurnsUpdateEvent, TURNS_INIT_VALUE};

fn points_after(start: i32, deltas: &[i32]) -> i32 {
    let mut points = MovementPoints(start);
    let events: Vec<MovementPointsUpdateEvent> =
        deltas.iter().map(|d| MovementPointsUpdateEvent(*d)).collect();
    update_movement_points(&mut points, &events);
    points.0
}

fn turns_after(start: i32, deltas: &[i32]) -> i32 {
    let mut turns = TurnsLeft(start);
    let events: Vec<TurnsUpdateEvent> = deltas.iter().map(|d| TurnsUpdateEvent(*d)).collect();
    update_turns_left(&mut turns, &events);
    turns.0
}

#[test]
fn ledger_starts_at_zero_points_and_seven_turns() {
    assert_eq!(MovementPoints::new(), MovementPoints(0));
    assert_eq!(TurnsLeft::new(), TurnsLeft(7));
    assert_eq!(MOVEMENT_POINTS_INIT_VALUE, 0);
    assert_eq!(TURNS_INIT_VALUE, 7);
}

#[test]
fn deltas_are_added() {
    assert_eq!(points_after(0, &[2, 3]), 5);
    assert_eq!(points_after(5, &[-2]), 3);
    assert_eq!(points_after(1, &[-2, -2]), -3);
    assert_eq!(points_after(4, &[]), 4);
    assert_eq!(turns_after(7, &[-1]), 6);
    assert_eq!(turns_after(7, &[1, -1, -1]), 6);
    assert_eq!(turns_after(0, &[-1]), -1);
    assert_eq!(turns_after(3, &[]), 3);
}

#[test]
fn single_deltas_are_added() {
    let mut points = MovementPoints(3);
    points.apply_movement_delta(4);
    assert_eq!(points, MovementPoints(7));
    points.apply_movement_delta(-10);
    assert_eq!(points, MovementPoints(-3));
    let mut turns = TurnsLeft(7);
    turns.apply_turn_delta(-1);
    assert_eq!(turns, TurnsLeft(6));
    turns.apply_turn_delta(0);
    assert_eq!(turns, TurnsLeft(6));
    assert_eq!(apply_delta(2, 3), 5);
    assert_eq!(apply_delta(-2, -3), -5);
}

#[test]
fn deltas_give_the_same_counter_in_any_order() {
    let (a, b, c) = (4, -9, 2);
    let orders = [[a, b, c], [a, c, b], [b, a, c], [b, c, a], [c, a, b], [c, b, a]];
    for order in orders.iter() {
        assert_eq!(points_after(1, order), -2);
        assert_eq!(turns_after(7, order), 4);
    }
}

#[test]
fn deltas_in_two_batches_give_what_one_batch_gives() {
    let once = points_after(3, &[5, -7, 11, 2]);
    let first = points_after(3, &[5, -7]);
    assert_eq!(points_after(first, &[11, 2]), once);
    assert_eq!(once, 14);
}

#[test]
fn order_does_not_matter_where_the_sum_wraps() {
    let orders = [
        [i32::MAX, 1, -5],
        [i32::MAX, -5, 1],
        [1, i32::MAX, -5],
        [1, -5, i32::MAX],
        [-5, i32::MAX, 1],
        [-5, 1, i32::MAX],
    ];
    for order in orders.iter() {
        assert_eq!(points_after(10, order), i32::MIN + 5);
    }
}

#[test]
fn counters_wrap_round_at_the_ends_of_their_range() {
    assert_eq!(points_after(i32::MAX, &[1]), i32::MIN);
    assert_eq!(points_after(i32::MIN, &[-1]), i32::MAX);
    assert_eq!(turns_after(i32::MIN, &[-1]), i32::MAX);
    assert_eq!(apply_delta(i32::MAX, i32::MAX), -2);
}

#[test]
fn bits_are_read_as_signed_and_unsigned() {
    assert_eq!(to_signed(0), 0);
    assert_eq!(to_signed(5), 5);
    assert_eq!(to_signed(0x7fff_ffff), i32::MAX);
    assert_eq!(to_signed(0x8000_0000), i32::MIN);
    assert_eq!(to_signed(u32::MAX), -1);
    assert_eq!(to_unsigned(0), 0);
    assert_eq!(to_unsigned(7), 7);
    assert_eq!(to_unsigned(-1), u32::MAX);
    assert_eq!(to_unsigned(i32::MIN), 0x8000_0000);
    assert_eq!(to_unsigned(i32::MAX), 0x7fff_ffff);
}

#[test]
fn values_are_lowered_and_multiplied_modulo_two_to_the_thirty_second() {
    assert_eq!(lowered(5, 2), 3);
    assert_eq!(lowered(5, 5), 0);
    assert_eq!(lowered(1, 2), u32::MAX);
    assert_eq!(lowered(5, -2), 7);
    assert_eq!(lowered(u32::MAX, -1), 0);
    assert_eq!(lowered(0, i32::MIN), 0x8000_0000);
    assert_eq!(multiplied(3, 2), 6);
    assert_eq!(multiplied(3, 0), 0);
    assert_eq!(multiplied(3, -1), u32::MAX - 2);
    assert_eq!(multiplied(0x8000_0000, 2), 0);
    assert_eq!(multiplied(u32::MAX, 3), u32::MAX - 2);
}
