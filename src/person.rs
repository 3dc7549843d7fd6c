//! Passengers: a name, an optional target seat and a baggage flag.

use vstd::prelude::*;

verus! {

/// The move a passenger chooses on one tick.
#[allow(non_camel_case_types)]
#[derive(Debug, PartialEq, Eq, Structural, Clone, Copy)]
pub enum Behaviour {
    Move_North,
    Move_South,
    Move_East,
    Move_West,
    Wait,
    Stow,
}

/// What a passenger is, as a mathematical value.
pub struct PersonView {
    pub name: Seq<char>,
    pub seat: Option<(u16, u16)>,
    pub baggage: bool,
}

/// A passenger waiting to board or moving through the cabin.
pub struct Person {
    name: String,
    seat: Option<(u16, u16)>,
    baggage: bool,
}

impl View for Person {
    type V = PersonView;

    closed spec fn view(&self) -> PersonView {
        PersonView { name: self.name@, seat: self.seat, baggage: self.baggage }
    }
}

impl Person {
    /// A passenger with the given name, no target seat and no baggage.
    pub fn new(n: &str) -> (r: Person)
        ensures
            r@ == (PersonView { name: n@, seat: None, baggage: false }),
    {
        Person { name: n.to_string(), seat: None, baggage: false }
    }

    /// Sets the seat the passenger heads for.
    pub fn target_seat(&mut self, x: u16, y: u16)
        ensures
            final(self)@ == (PersonView { seat: Some((x, y)), ..old(self)@ }),
    {
        self.seat = Some((x, y));
    }

    pub fn get_name(&self) -> (r: String)
        ensures
            r@ == self@.name,
    {
        self.name.clone()
    }

    pub fn get_seat(&self) -> (r: Option<(u16, u16)>)
        ensures
            r == self@.seat,
    {
        self.seat
    }

    pub fn set_name(&mut self, n: &str)
        ensures
            final(self)@ == (PersonView { name: n@, ..old(self)@ }),
    {
        self.name = n.to_string();
    }

    pub fn set_baggage(&mut self, b: bool)
        ensures
            final(self)@ == (PersonView { baggage: b, ..old(self)@ }),
    {
        self.baggage = b;
    }

    pub fn has_baggage(&self) -> (r: bool)
        ensures
            r == self@.baggage,
    {
        self.baggage
    }

    /// The passenger has put their luggage away.
    pub fn remove_baggage(&mut self)
        ensures
            final(self)@ == (PersonView { baggage: false, ..old(self)@ }),
    {
        self.baggage = false;
    }
}

} // verus!
