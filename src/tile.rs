//! A single cell of the cabin: its kind and who stands on it.

use vstd::prelude::*;
use crate::person::{Person, PersonView};

verus! {

/// The kind of a cabin cell. `Blocked` is impassable.
#[derive(Debug, PartialEq, Eq, Structural, Clone, Copy)]
pub enum Variant {
    Aisle,
    Seat,
    Entrance,
    Blocked,
}

/// What a tile holds, as a mathematical value.
pub struct TileView {
    pub kind: Variant,
    pub occupier: Option<PersonView>,
    pub passer: Option<PersonView>,
    pub updated: bool,
    pub pass_count: bool,
}

/// A tile whose passengers stand where they may: a passer only on a seat
/// beside its occupier, and nobody on a blocked tile.
pub open spec fn sound(t: TileView) -> bool {
    &&& (t.passer is Some ==> t.occupier is Some && t.kind == Variant::Seat)
    &&& (t.kind == Variant::Blocked ==> t.occupier is None && t.passer is None)
}

/// An empty tile of the given kind.
pub open spec fn empty_tile(kind: Variant) -> TileView {
    TileView { kind, occupier: None, passer: None, updated: false, pass_count: false }
}

/// The tile after a passenger has become its occupier.
pub open spec fn occupied_by(t: TileView, p: PersonView) -> TileView {
    TileView { occupier: Some(p), updated: true, ..t }
}

/// The tile after its occupier has left: a passer, if there is one, is
/// left as the sole occupant.
pub open spec fn freed(t: TileView) -> TileView {
    TileView { occupier: t.passer, passer: None, pass_count: false, updated: true, ..t }
}

/// The tile after a passer has squeezed in beside its occupier.
pub open spec fn passed_in(t: TileView, p: PersonView) -> TileView {
    TileView { passer: Some(p), pass_count: true, updated: true, ..t }
}

/// The tile after its passer has left.
pub open spec fn passed_out(t: TileView) -> TileView {
    TileView { passer: None, pass_count: false, updated: true, ..t }
}

/// A cabin cell with up to two passengers: the occupier and, on a seat, a
/// passer squeezing by.
pub struct Tile {
    variant: Variant,
    occupier: Option<Person>,
    passer: Option<Person>,
    updated: bool,
    pass_count: bool,
}

impl View for Tile {
    type V = TileView;

    closed spec fn view(&self) -> TileView {
        TileView {
            kind: self.variant,
            occupier: match self.occupier {
                Some(p) => Some(p@),
                None => None,
            },
            passer: match self.passer {
                Some(p) => Some(p@),
                None => None,
            },
            updated: self.updated,
            pass_count: self.pass_count,
        }
    }
}

impl Tile {
    /// An empty tile of the given kind.
    pub fn new(variant: Variant) -> (r: Tile)
        ensures
            r@ == empty_tile(variant),
    {
        Tile { variant, occupier: None, passer: None, updated: false, pass_count: false }
    }

    pub fn aisle() -> (r: Tile)
        ensures
            r@ == empty_tile(Variant::Aisle),
    {
        Tile::new(Variant::Aisle)
    }

    pub fn seat() -> (r: Tile)
        ensures
            r@ == empty_tile(Variant::Seat),
    {
        Tile::new(Variant::Seat)
    }

    pub fn entrance() -> (r: Tile)
        ensures
            r@ == empty_tile(Variant::Entrance),
    {
        Tile::new(Variant::Entrance)
    }

    pub fn none() -> (r: Tile)
        ensures
            r@ == empty_tile(Variant::Blocked),
    {
        Tile::new(Variant::Blocked)
    }

    pub fn get_variant(&self) -> (r: Variant)
        ensures
            r == self@.kind,
    {
        self.variant
    }

    /// Places a passenger as this tile's occupier.
    pub fn occupy(&mut self, p: Person)
        requires
            old(self)@.occupier is None,
        ensures
            final(self)@ == occupied_by(old(self)@, p@),
    {
        self.occupier = Some(p);
        self.updated = true;
    }

    /// Takes the occupier off this tile; a passer squeezing by becomes the
    /// occupier.
    pub fn free(&mut self) -> (r: Person)
        requires
            old(self)@.occupier is Some,
        ensures
            old(self)@.occupier == Some(r@),
            final(self)@ == freed(old(self)@),
    {
        let p = self.occupier.take();
        self.occupier = self.passer.take();
        self.pass_count = false;
        self.updated = true;
        p.unwrap()
    }

    /// Lets a second passenger squeeze in beside the occupier of a seat.
    pub fn pass_in(&mut self, p: Person)
        requires
            old(self)@.kind == Variant::Seat,
            old(self)@.occupier is Some,
            old(self)@.passer is None,
        ensures
            final(self)@ == passed_in(old(self)@, p@),
    {
        self.passer = Some(p);
        self.pass_count = true;
        self.updated = true;
    }

    /// Takes the passer off this tile.
    pub fn pass_out(&mut self) -> (r: Person)
        requires
            old(self)@.passer is Some,
        ensures
            old(self)@.passer == Some(r@),
            final(self)@ == passed_out(old(self)@),
    {
        let p = self.passer.take();
        self.pass_count = false;
        self.updated = true;
        p.unwrap()
    }

    pub fn is_occupied(&self) -> (r: bool)
        ensures
            r == self@.occupier is Some,
    {
        self.occupier.is_some()
    }

    /// Whether a passer currently shares this tile.
    pub fn is_allowing(&self) -> (r: bool)
        ensures
            r == self@.passer is Some,
    {
        self.passer.is_some()
    }

    pub fn pass_count(&self) -> (r: bool)
        ensures
            r == self@.pass_count,
    {
        self.pass_count
    }

    pub fn set_updated(&mut self, u: bool)
        ensures
            final(self)@ == (TileView { updated: u, ..old(self)@ }),
    {
        self.updated = u;
    }

    pub fn has_updated(&self) -> (r: bool)
        ensures
            r == self@.updated,
    {
        self.updated
    }

    /// The occupier's target seat and baggage flag, if there is an occupier.
    pub fn occupier_plan(&self) -> (r: Option<(Option<(u16, u16)>, bool)>)
        ensures
            r == match self@.occupier {
                Some(p) => Some((p.seat, p.baggage)),
                None => None,
            },
    {
        match &self.occupier {
            Some(p) => Some((p.get_seat(), p.has_baggage())),
            None => None,
        }
    }

    /// The passer's target seat and baggage flag, if there is a passer.
    pub fn passer_plan(&self) -> (r: Option<(Option<(u16, u16)>, bool)>)
        ensures
            r == match self@.passer {
                Some(p) => Some((p.seat, p.baggage)),
                None => None,
            },
    {
        match &self.passer {
            Some(p) => Some((p.get_seat(), p.has_baggage())),
            None => None,
        }
    }

    /// The occupier puts their luggage away.
    pub fn stow_occupier(&mut self)
        requires
            old(self)@.occupier is Some,
        ensures
            final(self)@ == (TileView {
                occupier: Some(PersonView { baggage: false, ..old(self)@.occupier.unwrap() }),
                ..old(self)@
            }),
    {
        let mut p = self.occupier.take().unwrap();
        p.remove_baggage();
        self.occupier = Some(p);
    }

    /// The passer puts their luggage away.
    pub fn stow_passer(&mut self)
        requires
            old(self)@.passer is Some,
        ensures
            final(self)@ == (TileView {
                passer: Some(PersonView { baggage: false, ..old(self)@.passer.unwrap() }),
                ..old(self)@
            }),
    {
        let mut p = self.passer.take().unwrap();
        p.remove_baggage();
        self.passer = Some(p);
    }
}

} // verus!
