use boarding::aircraft::Aircraft;
use boarding::person::Person;
use boarding::tile::Variant;

/// A 5x5 cabin with seats in every column but the middle one, and the
/// entrance at the foot of the aisle.
fn seated_cabin() -> Aircraft {
    let mut aircraft = Aircraft::new(5, 5);
    for i in 0..5 {
        for j in &[0, 1, 3, 4] {
            aircraft.set_tile(*j, i, Variant::Seat);
        }
    }
    aircraft.set_tile(2, 4, Variant::Entrance);
    aircraft
}

#[test]
fn clear() {
    let aircraft = Aircraft::new(5, 5);
    for i in 0..5 {
        for j in 0..5 {
            assert_eq!(aircraft.get_tile_variant(i, j), Variant::Aisle);
        }
    }
}

#[test]
fn mod_constructor() {
    let aircraft = Aircraft::new(10, 10);
    assert_eq!(aircraft.get_size().0, 10);
    assert_eq!(aircraft.get_size(), (10, 10));
    for i in 0..10 {
        for j in 0..10 {
            println!("Testing aircraft[{}][{}]", i, j);
            assert_eq!(aircraft.get_tile_variant(i, j), Variant::Aisle);
        }
    }
}

#[test]
fn add_passenger() {
    println!("Testing add_passenger()");
    let mut aircraft = Aircraft::new(6, 9);
    let passenger = Person::new("Dave");
    aircraft.add_passenger(passenger);
    assert_eq!(aircraft.queued(0).unwrap().get_name(), "Dave");
    assert_eq!(aircraft.queued(0).unwrap().get_seat(), None);
}

#[test]
fn get_size() {
    let aircraft = Aircraft::new(5, 6);
    assert_eq!(aircraft.get_size(), (5, 6));
}

#[test]
fn mod_update() {
    let mut aircraft = Aircraft::new(10, 10);
    let mut passenger = Person::new("Dave");
    passenger.target_seat(1, 1);

    aircraft.add_passenger(passenger);
    assert_eq!(aircraft.queue_len(), 1, "Unwanted passenger at initialisation");

    aircraft.set_tile(2, 2, Variant::Entrance);
    aircraft.update();
    assert_eq!(aircraft.queue_len(), 0, "Passenger was not removed from passengers array");
    assert!(aircraft.check_if_occupied(2, 2), "Passenger was not added to entrance tile");

    aircraft.update();
    aircraft.update();
    aircraft.update();
    aircraft.update();
    assert_eq!(aircraft.check_if_occupied(2, 2), false, "Passenger did not move from entrance");
    assert!(aircraft.check_if_occupied(1, 1), "Passenger did not make it to target seat");

    aircraft.update();
    assert!(aircraft.check_if_occupied(1, 1), "Passenger shouldn't have moved from their seat");
}

#[test]
fn impassable_terrain() {
    let mut aircraft = Aircraft::new(3, 3);
    let mut passenger = Person::new("Dave");
    passenger.target_seat(2, 2);
    aircraft.set_tile(0, 0, Variant::Entrance);
    for coords in &[(0, 1), (1, 1), (1, 0)] {
        aircraft.set_tile(coords.0, coords.1, Variant::Blocked);
    }
    aircraft.add_passenger(passenger);

    for _ in 0..100 {
        aircraft.update();
    }

    assert_eq!(aircraft.check_if_occupied(2, 2), false, "Passenger made it to seat despite obstacles");
}

#[test]
fn aisle_ignoring() {
    let mut aircraft = Aircraft::new(5, 5);
    let mut passenger = Person::new("Dave");
    passenger.target_seat(4, 0);
    aircraft.set_tile(2, 4, Variant::Entrance);
    for i in 0..5 {
        aircraft.set_tile(0, i, Variant::Seat);
        aircraft.set_tile(1, i, Variant::Seat);
        aircraft.set_tile(3, i, Variant::Seat);
        aircraft.set_tile(4, i, Variant::Seat);
    }
    aircraft.add_passenger(passenger);

    for _ in 0..10 {
        aircraft.update();
    }
    assert!(aircraft.check_if_occupied(4, 0), "Passenger did not make it to seat");
}

#[test]
fn advanced_aisle_ignoring() {
    let mut aircraft = Aircraft::new(3, 3);
    aircraft.set_tile(1, 2, Variant::Entrance);
    for i in 0..3 {
        for j in &[0, 2] {
            let mut passenger = Person::new("DEFAULT");
            passenger.target_seat(*j, i);
            aircraft.set_tile(*j, i, Variant::Seat);
            aircraft.add_passenger(passenger);
        }
    }

    for _ in 0..10 {
        aircraft.update();
    }

    for i in 0..3 {
        for j in &[0, 2] {
            assert!(aircraft.check_if_occupied(*j, i), "Seat {},{} was not occupied", *j, i);
        }
    }
}

#[test]
fn aisle_shifting() {
    let mut aircraft = Aircraft::new(5, 5);

    aircraft.set_tile(2, 4, Variant::Entrance);
    for i in 0..5 {
        aircraft.set_tile(0, i, Variant::Seat);
        aircraft.set_tile(1, i, Variant::Seat);
        aircraft.set_tile(3, i, Variant::Seat);
        aircraft.set_tile(4, i, Variant::Seat);
    }

    let mut passenger = Person::new("DEFAULT");
    passenger.target_seat(0, 0);
    aircraft.add_passenger(passenger);

    let mut passenger = Person::new("DEFAULT");
    passenger.target_seat(1, 0);
    aircraft.add_passenger(passenger);

    for _ in 0..10 {
        aircraft.update();
    }

    assert!(aircraft.check_if_occupied(0, 0));
    assert!(aircraft.check_if_occupied(1, 0));
}

#[test]
fn bad_order() {
    let mut aircraft = seated_cabin();

    for i in 0..3 {
        for j in &[0, 1, 4, 3] {
            let mut passenger = Person::new("DEFAULT");
            passenger.target_seat(*j, i);
            aircraft.add_passenger(passenger);
        }
    }

    for _ in 0..20 {
        aircraft.update();
    }

    for i in 0..3 {
        for j in &[0, 1, 4, 3] {
            assert!(aircraft.check_if_occupied(*j, i));
        }
    }
}

#[test]
fn baggage() {
    let mut aircraft = seated_cabin();

    let mut person = Person::new("DEFAULT");
    person.target_seat(0, 0);
    person.set_baggage(true);
    aircraft.add_passenger(person);

    for _ in 0..7 {
        aircraft.update();
    }

    assert_eq!(aircraft.check_if_occupied(0, 0), false);

    aircraft.update();

    assert!(aircraft.check_if_occupied(0, 0));
}

#[test]
fn test_is_complete() {
    let mut aircraft = seated_cabin();

    let mut passengers = Vec::<Person>::new();
    for i in &[0, 1, 3, 4] {
        let mut passenger = Person::new("DEFAULT");
        passenger.target_seat(*i, 0);
        passengers.push(passenger);

        let mut passenger = Person::new("DEFAULT");
        passenger.target_seat(*i, 0);
        aircraft.add_passenger(passenger);
    }

    for _ in 0..15 {
        aircraft.update();
        println!("Status is: {}", aircraft.is_complete());
    }

    assert!(aircraft.is_complete(), "Not all passengers reached their seats");
}

#[test]
fn advanced_stowing() {
    let mut aircraft = seated_cabin();

    for i in &[(0, 0), (4, 4)] {
        let mut passenger = Person::new("DEFAULT");
        passenger.target_seat(i.0, i.1);
        passenger.set_baggage(true);
        aircraft.add_passenger(passenger);
    }

    for _ in 0..15 {
        aircraft.update();
        println!("Status is: {}", aircraft.is_complete());
    }

    assert!(aircraft.is_complete(), "Not all passengers reached their seats(?)");
}

#[test]
fn empty_start() {
    let aircraft = Aircraft::new(7, 10);
    assert_eq!(aircraft.get_size(), (7, 10));
    for i in 0..7 {
        for j in 0..10 {
            assert_eq!(aircraft.get_tile_variant(i, j), Variant::Aisle);
            assert!(!aircraft.check_if_occupied(i, j));
        }
    }
    assert!(aircraft.is_complete());
}

#[test]
fn single_passenger_five_more_ticks() {
    let mut aircraft = Aircraft::new(10, 10);
    let mut passenger = Person::new("Dave");
    passenger.target_seat(1, 1);
    aircraft.add_passenger(passenger);
    aircraft.set_tile(2, 2, Variant::Entrance);
    aircraft.update();
    assert_eq!(aircraft.queue_len(), 0);
    assert!(aircraft.check_if_occupied(2, 2));
    for _ in 0..5 {
        aircraft.update();
    }
    assert!(!aircraft.check_if_occupied(2, 2));
    assert!(aircraft.check_if_occupied(1, 1));
    aircraft.update();
    assert!(aircraft.check_if_occupied(1, 1));
}

#[test]
fn full_boarding_of_every_seat() {
    let mut aircraft = seated_cabin();
    for y in 0..5 {
        for x in &[0, 1, 3, 4] {
            let mut passenger = Person::new("DEFAULT");
            passenger.target_seat(*x, y);
            aircraft.add_passenger(passenger);
        }
    }
    // One passenger boards per tick at most, so twenty need twenty ticks.
    let ticks = aircraft.run_to_completion().unwrap();
    assert!(ticks >= 20);
    assert!(aircraft.is_complete());
}

#[test]
fn run_to_completion_counts_ticks() {
    let mut aircraft = Aircraft::new(10, 10);
    let mut passenger = Person::new("Dave");
    passenger.target_seat(1, 1);
    aircraft.add_passenger(passenger);
    aircraft.set_tile(2, 2, Variant::Entrance);
    assert_eq!(aircraft.run_to_completion(), Ok(3));
    assert!(aircraft.is_complete());
}

#[test]
fn run_to_completion_gives_up() {
    let mut aircraft = Aircraft::new(3, 3);
    let mut passenger = Person::new("Dave");
    passenger.target_seat(2, 2);
    aircraft.set_tile(0, 0, Variant::Entrance);
    for coords in &[(0, 1), (1, 1), (1, 0)] {
        aircraft.set_tile(coords.0, coords.1, Variant::Blocked);
    }
    aircraft.add_passenger(passenger);
    assert_eq!(aircraft.run_to_completion(), Err("Passengers could not all be seated."));
    assert!(!aircraft.is_complete());
}

#[test]
fn queue_is_last_in_first_out() {
    let mut aircraft = Aircraft::new(3, 3);
    aircraft.set_tile(1, 2, Variant::Entrance);
    aircraft.add_passenger(Person::new("first"));
    aircraft.add_passenger(Person::new("second"));
    aircraft.update();
    assert_eq!(aircraft.queue_len(), 1);
    assert_eq!(aircraft.queued(0).unwrap().get_name(), "first");
}

#[test]
fn idle_update_changes_nothing() {
    let mut aircraft = Aircraft::new(4, 4);
    aircraft.set_tile(1, 3, Variant::Entrance);
    aircraft.set_tile(0, 0, Variant::Seat);
    aircraft.update();
    assert_eq!(aircraft.get_tile_variant(1, 3), Variant::Entrance);
    assert_eq!(aircraft.get_tile_variant(0, 0), Variant::Seat);
    for i in 0..4 {
        for j in 0..4 {
            assert!(!aircraft.check_if_occupied(i, j));
            assert!(!aircraft.check_if_allowing(i, j));
        }
    }
}

#[test]
fn set_tile_then_read() {
    let mut aircraft = Aircraft::new(3, 3);
    for (k, v) in [Variant::Seat, Variant::Entrance, Variant::Blocked].iter().enumerate() {
        aircraft.set_tile(k as u16, 1, *v);
        assert_eq!(aircraft.get_tile_variant(k as u16, 1), *v);
    }
}

#[test]
fn completion_ignores_identity() {
    let mut aircraft = Aircraft::new(3, 3);
    aircraft.set_tile(1, 2, Variant::Entrance);
    let mut p = Person::new("Eve");
    p.target_seat(1, 1);
    aircraft.add_passenger(p);
    // A passenger without a target stands in for the expected one.
    aircraft.add_passenger(Person::new("stranger"));
    aircraft.update();
    aircraft.update();
    assert!(!aircraft.check_if_occupied(1, 1));
    assert!(!aircraft.is_complete());
}

#[test]
fn seated_passenger_waits_for_busy_aisle() {
    // A passenger leaving a seat sideways may only squeeze past someone on
    // another seat; an occupied aisle tile makes them wait.
    let mut aircraft = Aircraft::new(4, 2);
    aircraft.set_tile(0, 1, Variant::Entrance);
    aircraft.set_tile(1, 0, Variant::Seat);
    aircraft.set_tile(3, 0, Variant::Seat);
    let mut far = Person::new("far");
    far.target_seat(3, 0);
    aircraft.add_passenger(far);
    let mut near = Person::new("near");
    near.target_seat(2, 0);
    aircraft.add_passenger(near);
    for _ in 0..6 {
        aircraft.update();
    }
    assert_eq!(aircraft.get_tile_variant(2, 0), Variant::Aisle);
    assert!(aircraft.check_if_occupied(2, 0));
    assert!(!aircraft.check_if_allowing(2, 0));
    assert!(aircraft.check_if_occupied(1, 0));
    for _ in 0..20 {
        aircraft.update();
        for x in 0..4 {
            for y in 0..2 {
                if aircraft.check_if_allowing(x, y) {
                    assert_eq!(aircraft.get_tile_variant(x, y), Variant::Seat);
                }
            }
        }
    }
    assert!(!aircraft.check_if_occupied(3, 0));
    assert!(!aircraft.is_complete());
}

#[test]
fn nobody_steps_onto_blocked_tiles() {
    let mut aircraft = Aircraft::new(3, 3);
    let mut passenger = Person::new("Dave");
    passenger.target_seat(2, 2);
    aircraft.set_tile(0, 0, Variant::Entrance);
    for coords in &[(0, 1), (1, 1), (1, 0)] {
        aircraft.set_tile(coords.0, coords.1, Variant::Blocked);
    }
    aircraft.add_passenger(passenger);
    for _ in 0..10 {
        aircraft.update();
        for coords in &[(0, 1), (1, 1), (1, 0)] {
            assert!(!aircraft.check_if_occupied(coords.0, coords.1));
        }
    }
    assert!(aircraft.check_if_occupied(0, 0));
}

#[test]
fn three_cells_two_passengers_for_the_aisle() {
    let mut aircraft = Aircraft::new(3, 1);
    aircraft.set_tile(0, 0, Variant::Entrance);
    aircraft.set_tile(1, 0, Variant::Seat);
    for name in &["a", "b"] {
        let mut p = Person::new(name);
        p.target_seat(2, 0);
        aircraft.add_passenger(p);
    }
    for _ in 0..10 {
        aircraft.update();
        assert!(!aircraft.check_if_allowing(2, 0));
    }
}

#[test]
fn ticks_keep_every_passenger() {
    let mut aircraft = seated_cabin();
    for y in 0..3 {
        for x in &[0, 1, 3, 4] {
            let mut passenger = Person::new("DEFAULT");
            passenger.target_seat(*x, y);
            aircraft.add_passenger(passenger);
        }
    }
    for _ in 0..30 {
        aircraft.update();
        let mut on_board = 0;
        for x in 0..5 {
            for y in 0..5 {
                if aircraft.check_if_occupied(x, y) {
                    on_board += 1;
                }
                if aircraft.check_if_allowing(x, y) {
                    on_board += 1;
                }
            }
        }
        assert_eq!(on_board + aircraft.queue_len(), 12);
    }
}
