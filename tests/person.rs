use boarding::person::Person;

#[test]
fn person_constructor() {
    let person = Person::new("Dave");
    assert_eq!(person.get_name(), "Dave");
    assert_eq!(person.get_seat(), None);
}

#[test]
fn target_seat() {
    let mut person = Person::new("Dave");
    person.target_seat(6, 9);

    assert_eq!(person.get_seat().unwrap(), (6, 9));
}

#[test]
fn baggage_flag() {
    let mut person = Person::new("Dave");
    assert!(!person.has_baggage());
    person.set_baggage(true);
    assert!(person.has_baggage());
    person.remove_baggage();
    assert!(!person.has_baggage());
    person.set_name("Eve");
    assert_eq!(person.get_name(), "Eve");
}
