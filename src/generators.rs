//! Boarding orders for a standard cabin: lists of passengers, each with
//! baggage and a seat, in the order they join the boarding queue.

use rand::seq::SliceRandom;
use vstd::prelude::*;
use vstd::seq_lib::{group_to_multiset_ensures, to_multiset_contains};
use crate::aircraft::abs_diff;
use crate::config::odd_width;
use crate::person::{Person, PersonView};

verus! {

/// Relies on rand's `SliceRandom::shuffle` driven by `thread_rng()`: the
/// items come back in some order, each as often as before.
#[verifier::external_body]
fn shuffled<T>(v: Vec<T>) -> (r: Vec<T>)
    ensures
        r@.to_multiset() == v@.to_multiset(),
{
    let mut v = v;
    v.shuffle(&mut rand::thread_rng());
    v
}

/// The numbers `0..n` in increasing order.
pub open spec fn upto(n: int) -> Seq<u16> {
    Seq::new(n as nat, |i: int| i as u16)
}

/// An item of a reordering is an item of the list it reorders.
proof fn lemma_reorder_member<A>(a: Seq<A>, b: Seq<A>, k: int)
    requires
        a.to_multiset() == b.to_multiset(),
        0 <= k < a.len(),
    ensures
        b.contains(a[k]),
{
    to_multiset_contains(a, a[k]);
    to_multiset_contains(b, a[k]);
    assert(a.contains(a[k]));
}

/// The numbers `0..n` in a random order.
fn random_order(n: u16) -> (r: Vec<u16>)
    ensures
        r@.to_multiset() == upto(n as int).to_multiset(),
        r@.len() == n,
        r@.no_duplicates(),
        forall|k: int| 0 <= k < r@.len() ==> #[trigger] r@[k] < n,
{
    let mut v: Vec<u16> = Vec::new();
    let mut i: u16 = 0;
    while i < n
        invariant
            i <= n,
            v@ =~= upto(i as int),
        decreases n - i,
    {
        v.push(i);
        i += 1;
    }
    let r = shuffled(v);
    proof {
        lemma_reorder_keeps_distinct(r@, upto(n as int));
        assert forall|k: int| 0 <= k < r@.len() implies #[trigger] r@[k] < n by {
            lemma_reorder_member(r@, upto(n as int), k);
        }
    }
    r
}

/// A reordering of a list without repeats has none either, and as many
/// items.
proof fn lemma_reorder_keeps_distinct<A>(a: Seq<A>, b: Seq<A>)
    requires
        a.to_multiset() == b.to_multiset(),
        b.no_duplicates(),
    ensures
        a.no_duplicates(),
        a.len() == b.len(),
{
    broadcast use group_to_multiset_ensures;

    b.lemma_multiset_has_no_duplicates();
    a.lemma_multiset_has_no_duplicates_conv();
    a.to_multiset_ensures();
    b.to_multiset_ensures();
}

/// The columns `0..w` but `aisle`, in a random order.
fn random_columns(w: u16, aisle: u16) -> (r: Vec<u16>)
    requires
        aisle < w,
    ensures
        r@.len() == w - 1,
        r@.no_duplicates(),
        forall|k: int| 0 <= k < r@.len() ==> #[trigger] r@[k] < w && r@[k] != aisle,
{
    let mut v: Vec<u16> = Vec::new();
    let mut x: u16 = 0;
    while x < w
        invariant
            x <= w,
            aisle < w,
            v@.len() == if x > aisle { x - 1 } else { x as int },
            forall|k: int| 0 <= k < v@.len() ==> #[trigger] v@[k] < x && v@[k] != aisle,
            forall|k1: int, k2: int| 0 <= k1 < k2 < v@.len() ==> #[trigger] v@[k1] < #[trigger] v@[k2],
        decreases w - x,
    {
        if x != aisle {
            v.push(x);
        }
        x += 1;
    }
    let ghost before = v@;
    let r = shuffled(v);
    proof {
        lemma_reorder_keeps_distinct(r@, before);
        assert forall|k: int| 0 <= k < r@.len() implies #[trigger] r@[k] < w && r@[k] != aisle by {
            lemma_reorder_member(r@, before, k);
        }
    }
    r
}

/// No two passengers of the list are bound for the same seat.
pub open spec fn no_seat_twice(v: Seq<Person>) -> bool {
    forall|k1: int, k2: int| 0 <= k1 < k2 < v.len() ==> (#[trigger] v[k1])@.seat != (#[trigger] v[k2])@.seat
}

/// A list stays without a repeated seat when every item added to it is
/// bound for a seat that no item before it has.
proof fn lemma_extend_no_seat_twice(earlier: Seq<Person>, now: Seq<Person>)
    requires
        no_seat_twice(earlier),
        earlier.len() <= now.len(),
        forall|k: int| 0 <= k < earlier.len() ==> #[trigger] now[k] == earlier[k],
        forall|k1: int, k2: int| 0 <= k1 < k2 < now.len() && earlier.len() <= k2 ==> (#[trigger] now[k1])@.seat
            != (#[trigger] now[k2])@.seat,
    ensures
        no_seat_twice(now),
{
    assert forall|k1: int, k2: int| 0 <= k1 < k2 < now.len() implies (#[trigger] now[k1])@.seat != (#[trigger] now[k2])@.seat by {
        if k2 < earlier.len() {
            assert(now[k1] == earlier[k1] && now[k2] == earlier[k2]);
        }
    }
}

/// Items `2m` and `2m + 1` of the list sit on one row, at columns mirrored
/// about the aisle, the first on the low side.
pub open spec fn mirrored_pair(v: Seq<Person>, m: int, aisle: int) -> bool {
    let a = v[2 * m]@.seat.unwrap();
    let b = v[2 * m + 1]@.seat.unwrap();
    &&& a.1 == b.1
    &&& a.0 < aisle
    &&& a.0 + b.0 == 2 * aisle
}

/// The list is made of mirrored pairs.
pub open spec fn in_mirrored_pairs(v: Seq<Person>, aisle: int) -> bool {
    forall|m: int| 0 <= m && 2 * m + 1 < v.len() ==> #[trigger] mirrored_pair(v, m, aisle)
}

/// A generated passenger: named `DEFAULT`, carrying baggage, bound for a
/// seat off the aisle of a standard cabin `w` wide and `h` long.
pub open spec fn boards_to(p: PersonView, w: int, h: int) -> bool {
    &&& p.name == "DEFAULT"@
    &&& p.baggage
    &&& p.seat is Some
    &&& p.seat.unwrap().0 < w
    &&& p.seat.unwrap().0 != w / 2
    &&& p.seat.unwrap().1 < h
}

pub open spec fn row_of(p: PersonView) -> int {
    p.seat.unwrap().1 as int
}

/// How many columns lie between a passenger's seat and the aisle.
pub open spec fn gap_of(p: PersonView, aisle: int) -> int {
    abs_diff(p.seat.unwrap().0 as int, aisle)
}

/// A generated passenger bound for `(x, y)`.
fn default_passenger(x: u16, y: u16) -> (r: Person)
    ensures
        r@ == (PersonView { name: "DEFAULT"@, seat: Some((x, y)), baggage: true }),
{
    let mut person = Person::new("DEFAULT");
    person.target_seat(x, y);
    person.set_baggage(true);
    person
}

/// Passengers for back-first boarding. The list runs from the row by the
/// entrance (the largest `y`) to the row furthest from it, each row's seats
/// in a random order; the queue admits from the tail, so the rows furthest
/// from the entrance board first.
pub fn random_back_first(size_x: u16, size_y: u16) -> (r: Result<Vec<Person>, &'static str>)
    ensures
        r is Ok,
        r.unwrap()@.len() == (odd_width(size_x) - 1) * size_y,
        no_seat_twice(r.unwrap()@),
        forall|k: int| 0 <= k < r.unwrap()@.len() ==> boards_to(#[trigger] r.unwrap()@[k]@, odd_width(size_x), size_y as int),
        forall|k1: int, k2: int| 0 <= k1 < k2 < r.unwrap()@.len() ==> row_of(#[trigger] r.unwrap()@[k1]@) >= row_of(
            #[trigger] r.unwrap()@[k2]@,
        ),
{
    let mut size_x = size_x;
    if size_x % 2 == 0 {
        size_x += 1;
    }
    let ghost w = size_x as int;
    let ghost h = size_y as int;
    let aisle: u16 = size_x / 2;
    let mut persons: Vec<Person> = Vec::new();
    let mut y: u16 = 0;
    while y < size_y
        invariant
            y <= size_y,
            w == size_x,
            w >= 1,
            h == size_y,
            aisle == w / 2,
            persons@.len() == y * (w - 1),
            no_seat_twice(persons@),
            forall|k: int| 0 <= k < persons@.len() ==> boards_to(#[trigger] persons@[k]@, w, h) && row_of(persons@[k]@) >= h - y,
            forall|k1: int, k2: int| 0 <= k1 < k2 < persons@.len() ==> row_of(#[trigger] persons@[k1]@) >= row_of(#[trigger] persons@[k2]@),
        decreases size_y - y,
    {
        let xs = random_columns(size_x, aisle);
        let row = size_y - (y + 1);
        let ghost start = persons@.len();
        let mut i: usize = 0;
        while i < xs.len()
            invariant
                i <= xs@.len(),
                xs@.len() == w - 1,
                xs@.no_duplicates(),
                y < size_y,
                row == h - 1 - y,
                w == size_x,
                h == size_y,
                aisle == w / 2,
                persons@.len() == start + i,
                no_seat_twice(persons@),
                forall|k: int| 0 <= k < xs@.len() ==> #[trigger] xs@[k] < size_x && xs@[k] != aisle,
                forall|k: int| 0 <= k < start ==> row_of(#[trigger] persons@[k]@) > row,
                forall|k: int| start <= k < persons@.len() ==> (#[trigger] persons@[k])@.seat == Some((xs@[k - start], row)),
                forall|k: int| 0 <= k < persons@.len() ==> boards_to(#[trigger] persons@[k]@, w, h) && row_of(persons@[k]@) >= row,
                forall|k1: int, k2: int| 0 <= k1 < k2 < persons@.len() ==> row_of(#[trigger] persons@[k1]@) >= row_of(#[trigger] persons@[k2]@),
            decreases xs@.len() - i,
        {
            let ghost earlier = persons@;
            persons.push(default_passenger(xs[i], row));
            assert forall|k1: int, k2: int| 0 <= k1 < k2 < persons@.len() && earlier.len() <= k2 implies (#[trigger] persons@[k1])@.seat != (#[trigger] persons@[k2])@.seat by {
                assert(persons@[k1] == earlier[k1]);
                if k1 >= start {
                    assert(xs@[k1 - start] != xs@[i as int]);
                }
            }
            proof {
                lemma_extend_no_seat_twice(earlier, persons@);
            }
            i += 1;
        }
        assert((y + 1) * (w - 1) == y * (w - 1) + (w - 1)) by (nonlinear_arith);
        y += 1;
    }
    assert(h * (w - 1) == (w - 1) * h) by (nonlinear_arith);
    Ok(persons)
}

/// Passengers for front-first boarding. The list runs from the row
/// furthest from the entrance (`y` = 0) to the row by it, each row's seats
/// in a random order; the queue admits from the tail, so the rows by the
/// entrance board first.
pub fn random_front_first(size_x: u16, size_y: u16) -> (r: Result<Vec<Person>, &'static str>)
    ensures
        r is Ok,
        r.unwrap()@.len() == (odd_width(size_x) - 1) * size_y,
        no_seat_twice(r.unwrap()@),
        forall|k: int| 0 <= k < r.unwrap()@.len() ==> boards_to(#[trigger] r.unwrap()@[k]@, odd_width(size_x), size_y as int),
        forall|k1: int, k2: int| 0 <= k1 < k2 < r.unwrap()@.len() ==> row_of(#[trigger] r.unwrap()@[k1]@) <= row_of(
            #[trigger] r.unwrap()@[k2]@,
        ),
{
    let mut size_x = size_x;
    if size_x % 2 == 0 {
        size_x += 1;
    }
    let ghost w = size_x as int;
    let ghost h = size_y as int;
    let aisle: u16 = size_x / 2;
    let mut persons: Vec<Person> = Vec::new();
    let mut y: u16 = 0;
    while y < size_y
        invariant
            y <= size_y,
            w == size_x,
            w >= 1,
            h == size_y,
            aisle == w / 2,
            persons@.len() == y * (w - 1),
            no_seat_twice(persons@),
            forall|k: int| 0 <= k < persons@.len() ==> boards_to(#[trigger] persons@[k]@, w, h) && row_of(persons@[k]@) < y,
            forall|k1: int, k2: int| 0 <= k1 < k2 < persons@.len() ==> row_of(#[trigger] persons@[k1]@) <= row_of(#[trigger] persons@[k2]@),
        decreases size_y - y,
    {
        let xs = random_columns(size_x, aisle);
        let ghost start = persons@.len();
        let mut i: usize = 0;
        while i < xs.len()
            invariant
                i <= xs@.len(),
                xs@.len() == w - 1,
                xs@.no_duplicates(),
                y < size_y,
                w == size_x,
                h == size_y,
                aisle == w / 2,
                persons@.len() == start + i,
                no_seat_twice(persons@),
                forall|k: int| 0 <= k < xs@.len() ==> #[trigger] xs@[k] < size_x && xs@[k] != aisle,
                forall|k: int| 0 <= k < start ==> row_of(#[trigger] persons@[k]@) < y,
                forall|k: int| start <= k < persons@.len() ==> (#[trigger] persons@[k])@.seat == Some((xs@[k - start], y)),
                forall|k: int| 0 <= k < persons@.len() ==> boards_to(#[trigger] persons@[k]@, w, h) && row_of(persons@[k]@) <= y,
                forall|k1: int, k2: int| 0 <= k1 < k2 < persons@.len() ==> row_of(#[trigger] persons@[k1]@) <= row_of(#[trigger] persons@[k2]@),
            decreases xs@.len() - i,
        {
            let ghost earlier = persons@;
            persons.push(default_passenger(xs[i], y));
            assert forall|k1: int, k2: int| 0 <= k1 < k2 < persons@.len() && earlier.len() <= k2 implies (#[trigger] persons@[k1])@.seat != (#[trigger] persons@[k2])@.seat by {
                assert(persons@[k1] == earlier[k1]);
                if k1 >= start {
                    assert(xs@[k1 - start] != xs@[i as int]);
                }
            }
            proof {
                lemma_extend_no_seat_twice(earlier, persons@);
            }
            i += 1;
        }
        assert((y + 1) * (w - 1) == y * (w - 1) + (w - 1)) by (nonlinear_arith);
        y += 1;
    }
    assert(h * (w - 1) == (w - 1) * h) by (nonlinear_arith);
    Ok(persons)
}

/// Passengers for window-first boarding, in pairs either side of the aisle.
/// The list runs from the seats next to the aisle to the windows, each
/// column's rows in a random order; the queue admits from the tail, so the
/// windows board first.
pub fn random_window_first(size_x: u16, size_y: u16) -> (r: Result<Vec<Person>, &'static str>)
    ensures
        r is Ok,
        r.unwrap()@.len() == (odd_width(size_x) - 1) * size_y,
        in_mirrored_pairs(r.unwrap()@, odd_width(size_x) / 2),
        no_seat_twice(r.unwrap()@),
        forall|k: int| 0 <= k < r.unwrap()@.len() ==> boards_to(#[trigger] r.unwrap()@[k]@, odd_width(size_x), size_y as int),
        forall|k1: int, k2: int| 0 <= k1 < k2 < r.unwrap()@.len() ==> gap_of(#[trigger] r.unwrap()@[k1]@, odd_width(size_x) / 2)
            <= gap_of(#[trigger] r.unwrap()@[k2]@, odd_width(size_x) / 2),
{
    let mut size_x = size_x;
    if size_x % 2 == 0 {
        size_x += 1;
    }
    let ghost w = size_x as int;
    let ghost h = size_y as int;
    let aisle: u16 = size_x / 2;
    let mut persons: Vec<Person> = Vec::new();
    let mut x: u16 = 0;
    while x < aisle
        invariant
            x <= aisle,
            w == size_x,
            w % 2 == 1,
            h == size_y,
            aisle == w / 2,
            persons@.len() == x * (2 * h),
            persons@.len() % 2 == 0,
            in_mirrored_pairs(persons@, aisle as int),
            no_seat_twice(persons@),
            forall|k: int| 0 <= k < persons@.len() ==> boards_to(#[trigger] persons@[k]@, w, h) && gap_of(persons@[k]@, aisle as int) <= x,
            forall|k1: int, k2: int| 0 <= k1 < k2 < persons@.len() ==> gap_of(#[trigger] persons@[k1]@, aisle as int) <= gap_of(#[trigger] persons@[k2]@, aisle as int),
        decreases aisle - x,
    {
        let ys = random_order(size_y);
        let c0: u16 = aisle - (x + 1);
        let c1: u16 = aisle + (x + 1);
        let ghost start = persons@.len();
        let mut i: usize = 0;
        while i < ys.len()
            invariant
                i <= ys@.len(),
                ys@.len() == h,
                ys@.no_duplicates(),
                x < aisle,
                w == size_x,
                w % 2 == 1,
                h == size_y,
                aisle == w / 2,
                c0 as int == aisle as int - (x as int + 1),
                c1 as int == aisle as int + (x as int + 1),
                persons@.len() == start + 2 * i,
                start % 2 == 0,
                in_mirrored_pairs(persons@, aisle as int),
                no_seat_twice(persons@),
                forall|k: int| 0 <= k < ys@.len() ==> #[trigger] ys@[k] < size_y,
                forall|k: int| 0 <= k < start ==> gap_of(persons@[k]@, aisle as int) <= x,
                forall|j: int| 0 <= j < i ==> (#[trigger] persons@[start + 2 * j])@.seat == Some((c0, ys@[j])),
                forall|j: int| 0 <= j < i ==> (#[trigger] persons@[start + 2 * j + 1])@.seat == Some((c1, ys@[j])),
                forall|k: int| 0 <= k < persons@.len() ==> boards_to(#[trigger] persons@[k]@, w, h) && gap_of(persons@[k]@, aisle as int) <= x + 1,
                forall|k1: int, k2: int| 0 <= k1 < k2 < persons@.len() ==> gap_of(#[trigger] persons@[k1]@, aisle as int) <= gap_of(#[trigger] persons@[k2]@, aisle as int),
            decreases ys@.len() - i,
        {
            let ghost earlier = persons@;
            let y = ys[i];
            persons.push(default_passenger(c0, y));
            persons.push(default_passenger(c1, y));
            assert forall|k1: int, k2: int| 0 <= k1 < k2 < persons@.len() && earlier.len() <= k2 implies (#[trigger] persons@[k1])@.seat != (#[trigger] persons@[k2])@.seat by {
                if k1 >= earlier.len() {
                } else if k1 >= start {
                    assert(persons@[k1] == earlier[k1]);
                    let j = (k1 - start) / 2;
                    if k1 == start + 2 * j {
                        assert(earlier[start + 2 * j]@.seat == Some((c0, ys@[j])));
                    } else {
                        assert(earlier[start + 2 * j + 1]@.seat == Some((c1, ys@[j])));
                    }
                    assert(ys@[j] != ys@[i as int]);
                } else {
                    assert(persons@[k1] == earlier[k1]);
                }
            }
            proof {
                lemma_extend_no_seat_twice(earlier, persons@);
            }
            assert forall|m: int| 0 <= m && 2 * m + 1 < persons@.len() implies #[trigger] mirrored_pair(persons@, m, aisle as int) by {
                if 2 * m + 1 < earlier.len() {
                    assert(mirrored_pair(earlier, m, aisle as int));
                    assert(persons@[2 * m] == earlier[2 * m] && persons@[2 * m + 1] == earlier[2 * m + 1]);
                }
            }
            assert forall|j: int| 0 <= j < i + 1 implies (#[trigger] persons@[start + 2 * j])@.seat == Some((c0, ys@[j])) by {
                if j < i {
                    assert(persons@[start + 2 * j] == earlier[start + 2 * j]);
                }
            }
            assert forall|j: int| 0 <= j < i + 1 implies (#[trigger] persons@[start + 2 * j + 1])@.seat == Some((c1, ys@[j])) by {
                if j < i {
                    assert(persons@[start + 2 * j + 1] == earlier[start + 2 * j + 1]);
                }
            }
            i += 1;
        }
        assert((x + 1) * (2 * h) == x * (2 * h) + 2 * h) by (nonlinear_arith);
        x += 1;
    }
    assert(aisle * (2 * h) == (w - 1) * h) by (nonlinear_arith)
        requires
            w == 2 * aisle + 1,
    ;
    Ok(persons)
}

/// Passengers for aisle-first boarding, in pairs either side of the aisle.
/// The list runs from the windows to the seats next to the aisle, each
/// column's rows in a random order; the queue admits from the tail, so the
/// seats by the aisle board first.
pub fn random_aisle_first(size_x: u16, size_y: u16) -> (r: Result<Vec<Person>, &'static str>)
    ensures
        r is Ok,
        r.unwrap()@.len() == (odd_width(size_x) - 1) * size_y,
        in_mirrored_pairs(r.unwrap()@, odd_width(size_x) / 2),
        no_seat_twice(r.unwrap()@),
        forall|k: int| 0 <= k < r.unwrap()@.len() ==> boards_to(#[trigger] r.unwrap()@[k]@, odd_width(size_x), size_y as int),
        forall|k1: int, k2: int| 0 <= k1 < k2 < r.unwrap()@.len() ==> gap_of(#[trigger] r.unwrap()@[k1]@, odd_width(size_x) / 2)
            >= gap_of(#[trigger] r.unwrap()@[k2]@, odd_width(size_x) / 2),
{
    let mut size_x = size_x;
    if size_x % 2 == 0 {
        size_x += 1;
    }
    let ghost w = size_x as int;
    let ghost h = size_y as int;
    let aisle: u16 = size_x / 2;
    let mut persons: Vec<Person> = Vec::new();
    let mut x: u16 = 0;
    while x < aisle
        invariant
            x <= aisle,
            w == size_x,
            w % 2 == 1,
            h == size_y,
            aisle == w / 2,
            persons@.len() == x * (2 * h),
            persons@.len() % 2 == 0,
            in_mirrored_pairs(persons@, aisle as int),
            no_seat_twice(persons@),
            forall|k: int| 0 <= k < persons@.len() ==> boards_to(#[trigger] persons@[k]@, w, h) && gap_of(persons@[k]@, aisle as int) > aisle - x,
            forall|k1: int, k2: int| 0 <= k1 < k2 < persons@.len() ==> gap_of(#[trigger] persons@[k1]@, aisle as int) >= gap_of(#[trigger] persons@[k2]@, aisle as int),
        decreases aisle - x,
    {
        let ys = random_order(size_y);
        let c0: u16 = x;
        let c1: u16 = size_x - (x + 1);
        let ghost start = persons@.len();
        let mut i: usize = 0;
        while i < ys.len()
            invariant
                i <= ys@.len(),
                ys@.len() == h,
                ys@.no_duplicates(),
                x < aisle,
                w == size_x,
                w % 2 == 1,
                h == size_y,
                aisle == w / 2,
                c0 as int == x,
                c1 as int == w - (x as int + 1),
                persons@.len() == start + 2 * i,
                start % 2 == 0,
                in_mirrored_pairs(persons@, aisle as int),
                no_seat_twice(persons@),
                forall|k: int| 0 <= k < ys@.len() ==> #[trigger] ys@[k] < size_y,
                forall|k: int| 0 <= k < start ==> gap_of(persons@[k]@, aisle as int) > aisle - x,
                forall|j: int| 0 <= j < i ==> (#[trigger] persons@[start + 2 * j])@.seat == Some((c0, ys@[j])),
                forall|j: int| 0 <= j < i ==> (#[trigger] persons@[start + 2 * j + 1])@.seat == Some((c1, ys@[j])),
                forall|k: int| 0 <= k < persons@.len() ==> boards_to(#[trigger] persons@[k]@, w, h) && gap_of(persons@[k]@, aisle as int) >= aisle - x,
                forall|k1: int, k2: int| 0 <= k1 < k2 < persons@.len() ==> gap_of(#[trigger] persons@[k1]@, aisle as int) >= gap_of(#[trigger] persons@[k2]@, aisle as int),
            decreases ys@.len() - i,
        {
            let ghost earlier = persons@;
            let y = ys[i];
            persons.push(default_passenger(c0, y));
            persons.push(default_passenger(c1, y));
            assert forall|k1: int, k2: int| 0 <= k1 < k2 < persons@.len() && earlier.len() <= k2 implies (#[trigger] persons@[k1])@.seat != (#[trigger] persons@[k2])@.seat by {
                if k1 >= earlier.len() {
                } else if k1 >= start {
                    assert(persons@[k1] == earlier[k1]);
                    let j = (k1 - start) / 2;
                    if k1 == start + 2 * j {
                        assert(earlier[start + 2 * j]@.seat == Some((c0, ys@[j])));
                    } else {
                        assert(earlier[start + 2 * j + 1]@.seat == Some((c1, ys@[j])));
                    }
                    assert(ys@[j] != ys@[i as int]);
                } else {
                    assert(persons@[k1] == earlier[k1]);
                }
            }
            proof {
                lemma_extend_no_seat_twice(earlier, persons@);
            }
            assert forall|m: int| 0 <= m && 2 * m + 1 < persons@.len() implies #[trigger] mirrored_pair(persons@, m, aisle as int) by {
                if 2 * m + 1 < earlier.len() {
                    assert(mirrored_pair(earlier, m, aisle as int));
                    assert(persons@[2 * m] == earlier[2 * m] && persons@[2 * m + 1] == earlier[2 * m + 1]);
                }
            }
            assert forall|j: int| 0 <= j < i + 1 implies (#[trigger] persons@[start + 2 * j])@.seat == Some((c0, ys@[j])) by {
                if j < i {
                    assert(persons@[start + 2 * j] == earlier[start + 2 * j]);
                }
            }
            assert forall|j: int| 0 <= j < i + 1 implies (#[trigger] persons@[start + 2 * j + 1])@.seat == Some((c1, ys@[j])) by {
                if j < i {
                    assert(persons@[start + 2 * j + 1] == earlier[start + 2 * j + 1]);
                }
            }
            i += 1;
        }
        assert((x + 1) * (2 * h) == x * (2 * h) + 2 * h) by (nonlinear_arith);
        x += 1;
    }
    assert(aisle * (2 * h) == (w - 1) * h) by (nonlinear_arith)
        requires
            w == 2 * aisle + 1,
    ;
    Ok(persons)
}

/// The seats of the first `m` columns of a standard cabin `w` wide and `h`
/// long, column by column, skipping the aisle.
pub open spec fn off_aisle_seats(w: int, h: int, m: int) -> Seq<(u16, u16)>
    decreases m,
{
    if m <= 0 {
        Seq::empty()
    } else if m - 1 == w / 2 {
        off_aisle_seats(w, h, m - 1)
    } else {
        off_aisle_seats(w, h, m - 1) + Seq::new(h as nat, |y: int| ((m - 1) as u16, y as u16))
    }
}

/// The seats a list of generated passengers are bound for.
pub open spec fn seats_of(v: Seq<Person>) -> Seq<(u16, u16)> {
    Seq::new(v.len(), |k: int| v[k]@.seat.unwrap())
}

/// Passengers for every seat in a wholly random order: the seats they are
/// bound for are those off the aisle, each once, in some order.
pub fn random(size_x: u16, size_y: u16) -> (r: Result<Vec<Person>, &'static str>)
    ensures
        r is Ok,
        forall|k: int| 0 <= k < r.unwrap()@.len() ==> boards_to(#[trigger] r.unwrap()@[k]@, odd_width(size_x), size_y as int),
        seats_of(r.unwrap()@).to_multiset() == off_aisle_seats(odd_width(size_x), size_y as int, odd_width(size_x)).to_multiset(),
{
    let mut size_x = size_x;
    if size_x % 2 == 0 {
        size_x += 1;
    }
    let ghost w = size_x as int;
    let ghost h = size_y as int;
    let aisle: u16 = size_x / 2;
    let mut coords: Vec<(u16, u16)> = Vec::new();
    let mut x: u16 = 0;
    while x < size_x
        invariant
            x <= size_x,
            w == size_x,
            h == size_y,
            aisle == w / 2,
            coords@ == off_aisle_seats(w, h, x as int),
            forall|k: int| 0 <= k < coords@.len() ==> seat_off_aisle(#[trigger] coords@[k], w, h),
        decreases size_x - x,
    {
        if x != aisle {
            let ghost start = coords@;
            let mut y: u16 = 0;
            while y < size_y
                invariant
                    y <= size_y,
                    x < size_x,
                    x != aisle,
                    w == size_x,
                    h == size_y,
                    aisle == w / 2,
                    coords@ == start + Seq::new(y as nat, |r: int| (x, r as u16)),
                    forall|k: int| 0 <= k < coords@.len() ==> seat_off_aisle(#[trigger] coords@[k], w, h),
                decreases size_y - y,
            {
                coords.push((x, y));
                assert(coords@ =~= start + Seq::new((y + 1) as nat, |r: int| (x, r as u16)));
                y += 1;
            }
        }
        x += 1;
    }
    let ghost before = coords@;
    let coords = shuffled(coords);
    proof {
        assert forall|k: int| 0 <= k < coords@.len() implies seat_off_aisle(#[trigger] coords@[k], w, h) by {
            lemma_reorder_member(coords@, before, k);
        }
    }
    let mut persons: Vec<Person> = Vec::new();
    let mut i: usize = 0;
    while i < coords.len()
        invariant
            i <= coords@.len(),
            w == size_x,
            h == size_y,
            forall|k: int| 0 <= k < coords@.len() ==> seat_off_aisle(#[trigger] coords@[k], w, h),
            forall|k: int| 0 <= k < persons@.len() ==> boards_to(#[trigger] persons@[k]@, w, h),
            persons@.len() == i,
            seats_of(persons@) == coords@.subrange(0, i as int),
        decreases coords@.len() - i,
    {
        let (sx, sy) = coords[i];
        let ghost earlier = persons@;
        persons.push(default_passenger(sx, sy));
        assert forall|k: int| 0 <= k < i implies #[trigger] seats_of(persons@)[k] == coords@[k] by {
            assert(persons@[k] == earlier[k]);
            assert(seats_of(earlier)[k] == coords@.subrange(0, i as int)[k]);
        }
        assert(seats_of(persons@) =~= coords@.subrange(0, i + 1));
        i += 1;
    }
    assert(coords@.subrange(0, coords@.len() as int) =~= coords@);
    Ok(persons)
}

/// A seat of a standard cabin `w` wide and `h` long, off the aisle.
pub open spec fn seat_off_aisle(s: (u16, u16), w: int, h: int) -> bool {
    s.0 < w && s.0 != w / 2 && s.1 < h
}

} // verus!
