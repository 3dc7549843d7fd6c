use boarding::config::{build_layout, passenger_from_fields, seat_data, standard_layout, str_to_var};
use boarding::tile::Variant;

#[test]
fn test_str_to_var() {
    assert_eq!(str_to_var("aisle"), Variant::Aisle);
    assert_eq!(str_to_var("seat"), Variant::Seat);
    assert_eq!(str_to_var("entrance"), Variant::Entrance);
    assert_eq!(str_to_var("none"), Variant::Blocked);
    assert_eq!(str_to_var("invalid"), Variant::Blocked);
}

#[test]
fn test_read_layout() {
    let mut seats = Vec::new();
    for x in 0..5 {
        for y in 0..5 {
            seats.push(seat_data::new(x, y, if x == 2 { "aisle" } else { "seat" }));
        }
    }
    let aircraft = build_layout(&seats);

    assert_eq!((5, 5), aircraft.get_size());
}

#[test]
fn layout_records_fill_gaps_with_aisle() {
    let seats = vec![seat_data::new(2, 0, "seat"), seat_data::new(0, 3, "entrance"), seat_data::new(2, 0, "bogus")];
    let aircraft = build_layout(&seats);
    assert_eq!(aircraft.get_size(), (3, 4));
    assert_eq!(aircraft.get_tile_variant(2, 0), Variant::Blocked);
    assert_eq!(aircraft.get_tile_variant(0, 3), Variant::Entrance);
    assert_eq!(aircraft.get_tile_variant(1, 1), Variant::Aisle);
}

#[test]
fn standard_layout_even_width() {
    let aircraft = standard_layout(4, 3).unwrap();
    assert_eq!(aircraft.get_size(), (5, 3));
    assert_eq!(aircraft.get_tile_variant(2, 2), Variant::Entrance);
    assert_eq!(aircraft.get_tile_variant(2, 0), Variant::Aisle);
    assert_eq!(aircraft.get_tile_variant(0, 0), Variant::Seat);
    assert_eq!(aircraft.get_tile_variant(4, 2), Variant::Seat);
}

#[test]
fn passenger_fields() {
    let p = passenger_from_fields("Ann", 3, 4, "1");
    assert_eq!(p.get_name(), "Ann");
    assert_eq!(p.get_seat(), Some((3, 4)));
    assert!(p.has_baggage());
    assert!(!passenger_from_fields("Bob", 0, 0, "yes").has_baggage());
}

#[test]
fn standard_layout_boards_fully() {
    let mut aircraft = standard_layout(5, 5).unwrap();
    for y in 0..5 {
        for x in &[0, 1, 3, 4] {
            aircraft.add_passenger(passenger_from_fields("DEFAULT", *x, y, "1"));
        }
    }
    let ticks = aircraft.run_to_completion().unwrap();
    assert!(ticks <= 1000);
    assert!(aircraft.is_complete());
}
