use tile_trek::sampling::{draw_and_remove, picks_are_valid, sample, sample_at_random};

#[test]
fn entry_leaves_the_pool_when_it_is_drawn() {
    let mut pool = vec!['a', 'b', 'c', 'd'];
    assert_eq!(draw_and_remove(&mut pool, 1), 'b');
    assert_eq!(pool, vec!['a', 'c', 'd']);
    assert_eq!(draw_and_remove(&mut pool, 2), 'd');
    assert_eq!(pool, vec!['a', 'c']);
    assert_eq!(draw_and_remove(&mut pool, 0), 'a');
    assert_eq!(pool, vec!['c']);
}

#[test]
fn picks_name_what_is_left_of_the_pool() {
    let mut pool = vec![10, 20, 30, 40, 50];
    let out = sample(&mut pool, &vec![4, 0, 2]);
    assert_eq!(out, Some(vec![50, 10, 40]));
    assert_eq!(pool, vec![20, 30]);
    let out = sample(&mut pool, &Vec::new());
    assert_eq!(out, Some(Vec::new()));
    assert_eq!(pool, vec![20, 30]);
    let out = sample(&mut pool, &vec![1, 0]);
    assert_eq!(out, Some(vec![30, 20]));
    assert!(pool.is_empty());
}

#[test]
fn picks_that_cannot_be_made_take_nothing() {
    let mut pool = vec![10, 20, 30];
    assert_eq!(sample(&mut pool, &vec![3]), None);
    assert_eq!(pool, vec![10, 20, 30]);
    assert_eq!(sample(&mut pool, &vec![0, 0, 1]), None);
    assert_eq!(pool, vec![10, 20, 30]);
    assert_eq!(sample(&mut pool, &vec![0, 0, 0, 0]), None);
    assert_eq!(pool, vec![10, 20, 30]);
    let mut empty: Vec<u8> = Vec::new();
    assert_eq!(sample(&mut empty, &vec![0]), None);
    assert_eq!(sample(&mut empty, &Vec::new()), Some(Vec::new()));
}

#[test]
fn picks_are_valid_when_each_names_an_entry_that_is_left() {
    assert!(picks_are_valid(5, &vec![4, 0, 2]));
    assert!(picks_are_valid(5, &vec![4, 3, 2, 1, 0]));
    assert!(picks_are_valid(5, &Vec::new()));
    assert!(picks_are_valid(0, &Vec::new()));
    assert!(!picks_are_valid(5, &vec![5]));
    assert!(!picks_are_valid(5, &vec![4, 4]));
    assert!(!picks_are_valid(5, &vec![0, 0, 0, 0, 0, 0]));
    assert!(!picks_are_valid(0, &vec![0]));
    assert!(!picks_are_valid(2, &vec![0, 0, 0]));
}

#[test]
fn random_sample_takes_nothing_twice() {
    for _ in 0..200 {
        let start: Vec<u32> = (0..20).collect();
        let mut pool = start.clone();
        let (out, picks) = sample_at_random(&mut pool, 12);
        assert_eq!(out.len(), 12);
        assert_eq!(picks.len(), 12);
        assert_eq!(pool.len(), 8);
        assert!(picks_are_valid(20, &picks));
        let mut all = out.clone();
        all.extend(pool.iter());
        all.sort();
        assert_eq!(all, start);
        let mut again = start.clone();
        assert_eq!(sample(&mut again, &picks), Some(out));
        assert_eq!(again, pool);
    }
}

#[test]
fn random_sample_can_take_the_whole_pool_or_nothing() {
    let mut pool = vec![1, 2, 3];
    let (out, picks) = sample_at_random(&mut pool, 3);
    assert!(pool.is_empty());
    assert_eq!(picks[2], 0);
    let mut sorted = out.clone();
    sorted.sort();
    assert_eq!(sorted, vec![1, 2, 3]);
    let (none, no_picks) = sample_at_random(&mut pool, 0);
    assert!(none.is_empty());
    assert!(no_picks.is_empty());
}

#[test]
fn random_picks_reach_every_entry() {
    let mut seen = [false; 4];
    for _ in 0..400 {
        let mut pool = vec![0usize, 1, 2, 3];
        let (out, _) = sample_at_random(&mut pool, 1);
        seen[out[0]] = true;
    }
    assert_eq!(seen, [true; 4]);
}

#[test]
fn random_sample_takes_what_is_left_where_the_pool_runs_out() {
    let mut pool = vec![1, 2, 3];
    let (out, picks) = sample_at_random(&mut pool, 5);
    assert_eq!(out.len(), 3);
    assert_eq!(picks.len(), 3);
    assert!(pool.is_empty());
    assert!(picks_are_valid(3, &picks));
    let mut sorted = out.clone();
    sorted.sort();
    assert_eq!(sorted, vec![1, 2, 3]);
    let (none, no_picks) = sample_at_random(&mut pool, 2);
    assert!(none.is_empty());
    assert!(no_picks.is_empty());
}
