use std::collections::HashSet;

use boarding::generators::{random, random_aisle_first, random_back_first, random_front_first, random_window_first};
use boarding::person::Person;

fn seats(list: &[Person]) -> Vec<(u16, u16)> {
    list.iter().map(|p| p.get_seat().unwrap()).collect()
}

fn assert_every_seat_once(list: &[Person], w: u16, h: u16) {
    let all = seats(list);
    let distinct: HashSet<(u16, u16)> = all.iter().cloned().collect();
    assert_eq!(all.len(), distinct.len());
    assert_eq!(all.len(), ((w - 1) * h) as usize);
    for (x, y) in all {
        assert!(x < w && x != w / 2 && y < h);
    }
    for p in list {
        assert!(p.has_baggage());
        assert_eq!(p.get_name(), "DEFAULT");
    }
}

#[test]
fn rand_back_first() {
    let list = random_back_first(5, 10).unwrap();

    assert_eq!(list.len(), 40);
}

#[test]
fn back_first_rear_rows_lead() {
    let list = random_back_first(4, 6).unwrap();
    assert_every_seat_once(&list, 5, 6);
    let rows: Vec<u16> = seats(&list).iter().map(|s| s.1).collect();
    assert!(rows.windows(2).all(|w| w[0] >= w[1]));
    assert_eq!(rows[0], 5);
}

#[test]
fn front_first_front_rows_lead() {
    let list = random_front_first(5, 6).unwrap();
    assert_every_seat_once(&list, 5, 6);
    let rows: Vec<u16> = seats(&list).iter().map(|s| s.1).collect();
    assert!(rows.windows(2).all(|w| w[0] <= w[1]));
    assert_eq!(rows[0], 0);
}

#[test]
fn window_first_lists_aisle_seats_first() {
    let list = random_window_first(7, 3).unwrap();
    assert_every_seat_once(&list, 7, 3);
    let gaps: Vec<i32> = seats(&list).iter().map(|s| (s.0 as i32 - 3).abs()).collect();
    assert!(gaps.windows(2).all(|w| w[0] <= w[1]));
    assert_eq!(gaps[0], 1);
    assert_eq!(*gaps.last().unwrap(), 3);
}

#[test]
fn aisle_first_lists_windows_first() {
    let list = random_aisle_first(6, 3).unwrap();
    assert_every_seat_once(&list, 7, 3);
    let gaps: Vec<i32> = seats(&list).iter().map(|s| (s.0 as i32 - 3).abs()).collect();
    assert!(gaps.windows(2).all(|w| w[0] >= w[1]));
    assert_eq!(gaps[0], 3);
}

#[test]
fn random_covers_every_seat() {
    let list = random(5, 4).unwrap();
    assert_every_seat_once(&list, 5, 4);
}

#[test]
fn random_order_is_shuffled() {
    let list = random(21, 20).unwrap();
    let mut canonical = Vec::new();
    for x in 0..21u16 {
        if x != 10 {
            for y in 0..20u16 {
                canonical.push((x, y));
            }
        }
    }
    assert_ne!(seats(&list), canonical);
    let mut sorted = seats(&list);
    sorted.sort();
    assert_eq!(sorted, canonical);
}

#[test]
fn back_first_rows_are_shuffled() {
    let list = random_back_first(41, 5).unwrap();
    let columns: Vec<u16> = seats(&list).iter().map(|s| s.0).collect();
    let ascending: Vec<u16> = (0..41u16).filter(|x| *x != 20).collect();
    assert!(columns.chunks(40).any(|row| row != ascending.as_slice()));
}

#[test]
fn window_and_aisle_first_come_in_mirrored_pairs() {
    for list in [random_window_first(7, 4).unwrap(), random_aisle_first(7, 4).unwrap()] {
        let all = seats(&list);
        assert_eq!(all.len() % 2, 0);
        for pair in all.chunks(2) {
            assert_eq!(pair[0].1, pair[1].1);
            assert!(pair[0].0 < 3);
            assert_eq!(pair[0].0 + pair[1].0, 6);
        }
    }
}
