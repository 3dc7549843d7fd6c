//! Building cabins and passengers from plain configuration values.

use vstd::prelude::*;
use crate::aircraft::{Aircraft, AircraftView, all_aisle};
use crate::person::{Person, PersonView};
use crate::tile::{Variant, empty_tile};

verus! {

/// The tile kind a layout word names; any other word names `Blocked`.
pub open spec fn variant_of_word(s: Seq<char>) -> Variant {
    if s == "aisle"@ {
        Variant::Aisle
    } else if s == "seat"@ {
        Variant::Seat
    } else if s == "entrance"@ {
        Variant::Entrance
    } else {
        Variant::Blocked
    }
}

/// Whether two strings hold the same characters.
fn same_text(a: &str, b: &str) -> (r: bool)
    ensures
        r == (a@ == b@),
{
    let sa = a.to_owned();
    let sb = b.to_owned();
    sa == sb
}

/// Converts a layout word into the tile kind it names.
pub fn str_to_var(var: &str) -> (r: Variant)
    ensures
        r == variant_of_word(var@),
{
    if same_text(var, "aisle") {
        Variant::Aisle
    } else if same_text(var, "seat") {
        Variant::Seat
    } else if same_text(var, "entrance") {
        Variant::Entrance
    } else {
        Variant::Blocked
    }
}

/// One record of a layout: a coordinate and the kind of tile there.
#[allow(non_camel_case_types)]
pub struct seat_data {
    seat_x: u16,
    seat_y: u16,
    variant: Variant,
}

impl View for seat_data {
    type V = (u16, u16, Variant);

    closed spec fn view(&self) -> (u16, u16, Variant) {
        (self.seat_x, self.seat_y, self.variant)
    }
}

impl seat_data {
    pub fn new(x: u16, y: u16, variant: &str) -> (r: seat_data)
        ensures
            r@ == (x, y, variant_of_word(variant@)),
    {
        seat_data { seat_x: x, seat_y: y, variant: str_to_var(variant) }
    }

    pub fn get_x(&self) -> (r: u16)
        ensures
            r == self@.0,
    {
        self.seat_x
    }

    pub fn get_y(&self) -> (r: u16)
        ensures
            r == self@.1,
    {
        self.seat_y
    }

    pub fn get_variant(&self) -> (r: Variant)
        ensures
            r == self@.2,
    {
        self.variant
    }
}

/// The width a standard cabin gets: an even width grows by one so that the
/// aisle can run down the middle.
pub open spec fn odd_width(size_x: u16) -> int {
    if size_x % 2 == 0 {
        size_x + 1
    } else {
        size_x as int
    }
}

/// The kind of tile `(x, y)` of a standard cabin `w` wide and `h` long: one
/// aisle down column `w / 2` whose last tile is the entrance, seats
/// elsewhere.
pub open spec fn standard_kind(w: int, h: int, x: int, y: int) -> Variant {
    if x != w / 2 {
        Variant::Seat
    } else if y == h - 1 {
        Variant::Entrance
    } else {
        Variant::Aisle
    }
}

/// An empty standard cabin `w` wide and `h` long.
pub open spec fn standard_view(w: int, h: int) -> AircraftView {
    AircraftView {
        size: (w as u16, h as u16),
        layout: Seq::new(w as nat, |x: int| Seq::new(h as nat, |y: int| empty_tile(standard_kind(w, h, x, y)))),
        passengers: Seq::empty(),
        targeted_seats: Seq::empty(),
    }
}

/// Generates an aircraft with a single aisle down the centre and seats either
/// side; an even `size_x` is taken as the next odd width.
pub fn standard_layout(size_x: u16, size_y: u16) -> (r: Result<Aircraft, &'static str>)
    requires
        size_y >= 1,
    ensures
        r is Ok,
        r.unwrap()@ == standard_view(odd_width(size_x), size_y as int),
        r.unwrap()@.wf(),
{
    let mut size_x = size_x;
    if size_x % 2 == 0 {
        size_x += 1;
    }
    let mut aircraft = Aircraft::new(size_x, size_y);
    let aisle = size_x / 2;
    let ghost w = size_x as int;
    let ghost h = size_y as int;
    let mut y: u16 = 0;
    while y < size_y
        invariant
            y <= size_y,
            w == size_x,
            h == size_y,
            aisle == w / 2,
            aircraft@.wf(),
            aircraft@.size == (size_x, size_y),
            aircraft@.passengers.len() == 0,
            aircraft@.targeted_seats.len() == 0,
            forall|c: int, r: int| 0 <= c < w && 0 <= r < h ==> #[trigger] aircraft@.layout[c][r] == empty_tile(
                if r < y && c != aisle { Variant::Seat } else { Variant::Aisle },
            ),
        decreases size_y - y,
    {
        let mut x: u16 = 0;
        while x < size_x
            invariant
                x <= size_x,
                y < size_y,
                w == size_x,
                h == size_y,
                aisle == w / 2,
                aircraft@.wf(),
                aircraft@.size == (size_x, size_y),
                aircraft@.passengers.len() == 0,
                aircraft@.targeted_seats.len() == 0,
                forall|c: int, r: int| 0 <= c < w && 0 <= r < h ==> #[trigger] aircraft@.layout[c][r] == empty_tile(
                    if (r < y || (r == y && c < x)) && c != aisle { Variant::Seat } else { Variant::Aisle },
                ),
            decreases size_x - x,
        {
            if x != aisle {
                let ghost before = aircraft@;
                aircraft.set_tile(x, y, Variant::Seat);
                assert forall|c: int, r: int| 0 <= c < w && 0 <= r < h implies #[trigger] aircraft@.layout[c][r] == empty_tile(
                    if (r < y || (r == y && c < x + 1)) && c != aisle { Variant::Seat } else { Variant::Aisle },
                ) by {
                    if c != x || r != y {
                        assert(before.layout[c].len() == h);
                        assert(before.layout[x as int].len() == h);
                        assert(aircraft@.layout[c][r] == before.layout[c][r]);
                    }
                }
            }
            x += 1;
        }
        y += 1;
    }
    let ghost before = aircraft@;
    aircraft.set_tile(aisle, size_y - 1, Variant::Entrance);
    assert forall|c: int, r: int| 0 <= c < w && 0 <= r < h implies #[trigger] aircraft@.layout[c][r] == empty_tile(standard_kind(w, h, c, r)) by {
        if c != aisle || r != h - 1 {
            assert(aircraft@.layout[c][r] == before.layout[c][r]);
        }
    }
    assert(aircraft@.layout =~~= standard_view(w, h).layout);
    assert(aircraft@.passengers =~= Seq::empty());
    assert(aircraft@.targeted_seats =~= Seq::empty());
    Ok(aircraft)
}

/// The records of a layout, as values.
pub open spec fn records_view(seats: Seq<seat_data>) -> Seq<(u16, u16, Variant)> {
    Seq::new(seats.len(), |k: int| seats[k]@)
}

/// The largest `x` among the first `n` records, or 0.
pub open spec fn max_x(s: Seq<(u16, u16, Variant)>, n: int) -> int
    decreases n,
{
    if n <= 0 {
        0
    } else if s[n - 1].0 > max_x(s, n - 1) {
        s[n - 1].0 as int
    } else {
        max_x(s, n - 1)
    }
}

/// The largest `y` among the first `n` records, or 0.
pub open spec fn max_y(s: Seq<(u16, u16, Variant)>, n: int) -> int
    decreases n,
{
    if n <= 0 {
        0
    } else if s[n - 1].1 > max_y(s, n - 1) {
        s[n - 1].1 as int
    } else {
        max_y(s, n - 1)
    }
}

/// The cabin `g` with the first `n` records laid onto it in order, a later
/// record of a coordinate replacing an earlier one.
pub open spec fn placed(g: AircraftView, s: Seq<(u16, u16, Variant)>, n: int) -> AircraftView
    decreases n,
{
    if n <= 0 {
        g
    } else {
        placed(g, s, n - 1).with_tile(s[n - 1].0 as int, s[n - 1].1 as int, empty_tile(s[n - 1].2))
    }
}

/// The cabin a list of layout records describes: as wide and as long as the
/// largest coordinates need, aisle wherever no record says otherwise.
pub open spec fn layout_of(s: Seq<(u16, u16, Variant)>) -> AircraftView {
    let w = max_x(s, s.len() as int) + 1;
    let h = max_y(s, s.len() as int) + 1;
    placed(
        AircraftView {
            size: (w as u16, h as u16),
            layout: all_aisle(w, h),
            passengers: Seq::empty(),
            targeted_seats: Seq::empty(),
        },
        s,
        s.len() as int,
    )
}

proof fn lemma_max_bounds(s: Seq<(u16, u16, Variant)>, n: int)
    requires
        0 <= n <= s.len(),
        forall|k: int| 0 <= k < s.len() ==> (#[trigger] s[k]).0 < 65535 && s[k].1 < 65535,
    ensures
        0 <= max_x(s, n) < 65535,
        0 <= max_y(s, n) < 65535,
        forall|k: int| 0 <= k < n ==> (#[trigger] s[k]).0 <= max_x(s, n) && s[k].1 <= max_y(s, n),
    decreases n,
{
    if n > 0 {
        lemma_max_bounds(s, n - 1);
    }
}

/// Builds the cabin that a list of layout records describes.
pub fn build_layout(seats: &Vec<seat_data>) -> (r: Aircraft)
    requires
        forall|k: int| 0 <= k < seats@.len() ==> (#[trigger] seats@[k])@.0 < 65535 && seats@[k]@.1 < 65535,
    ensures
        r@ == layout_of(records_view(seats@)),
        r@.wf(),
{
    let ghost s = records_view(seats@);
    let n = seats.len();
    let mut size_x: u16 = 0;
    let mut size_y: u16 = 0;
    let mut k: usize = 0;
    proof {
        lemma_max_bounds(s, n as int);
    }
    while k < n
        invariant
            k <= n,
            n == s.len(),
            s == records_view(seats@),
            size_x == max_x(s, k as int),
            size_y == max_y(s, k as int),
            forall|m: int| 0 <= m < s.len() ==> (#[trigger] s[m]).0 < 65535 && s[m].1 < 65535,
        decreases n - k,
    {
        proof {
            lemma_max_bounds(s, k as int + 1);
        }
        if seats[k].get_x() > size_x {
            size_x = seats[k].get_x();
        }
        if seats[k].get_y() > size_y {
            size_y = seats[k].get_y();
        }
        k += 1;
    }
    proof {
        lemma_max_bounds(s, n as int);
    }
    let mut aircraft = Aircraft::new(size_x + 1, size_y + 1);
    let ghost g0 = aircraft@;
    let mut k: usize = 0;
    while k < n
        invariant
            k <= n,
            n == s.len(),
            s == records_view(seats@),
            aircraft@ == placed(g0, s, k as int),
            aircraft@.wf(),
            aircraft@.size == g0.size,
            g0.size == ((max_x(s, n as int) + 1) as u16, (max_y(s, n as int) + 1) as u16),
            forall|m: int| 0 <= m < n ==> (#[trigger] s[m]).0 < g0.size.0 && s[m].1 < g0.size.1,
        decreases n - k,
    {
        assert(s[k as int] == seats@[k as int]@);
        let x = seats[k].get_x();
        let y = seats[k].get_y();
        aircraft.set_tile(x, y, seats[k].get_variant());
        k += 1;
    }
    aircraft
}

/// The baggage flag a passenger record's word gives: `"1"` is true, any
/// other word false.
pub open spec fn baggage_of_word(s: Seq<char>) -> bool {
    s == "1"@
}

/// A passenger from the fields of a roster record.
pub fn passenger_from_fields(name: &str, x: u16, y: u16, baggage: &str) -> (r: Person)
    ensures
        r@ == (PersonView { name: name@, seat: Some((x, y)), baggage: baggage_of_word(baggage@) }),
{
    let mut p = Person::new(name);
    p.target_seat(x, y);
    p.set_baggage(same_text(baggage, "1"));
    p
}

} // verus!
