//! Properties of the simulation that relate several operations.

use vstd::prelude::*;
use crate::aircraft::{AircraftView, dest, is_step, unmarked};
use crate::person::{Behaviour, PersonView};
use crate::tile::{
    TileView, Variant, empty_tile, freed, occupied_by, passed_in, passed_out, sound,
};

verus! {

/// Whether boarding is complete depends only on which targeted seats are
/// occupied, not on who occupies them.
pub proof fn complete_depends_on_occupancy(g1: AircraftView, g2: AircraftView)
    requires
        g1.size == g2.size,
        g1.targeted_seats == g2.targeted_seats,
        forall|k: int| 0 <= k < g1.targeted_seats.len() ==> {
            let s = #[trigger] g1.targeted_seats[k];
            g1.in_grid(s.0 as int, s.1 as int) ==> (g1.tile(s.0 as int, s.1 as int).occupier is Some
                <==> g2.tile(s.0 as int, s.1 as int).occupier is Some)
        },
    ensures
        g1.complete() == g2.complete(),
{
    if g1.complete() {
        assert forall|k: int| 0 <= k < g2.targeted_seats.len() implies {
            let s = #[trigger] g2.targeted_seats[k];
            g2.in_grid(s.0 as int, s.1 as int) && g2.tile(s.0 as int, s.1 as int).occupier is Some
        } by {}
    }
    if g2.complete() {
        assert forall|k: int| 0 <= k < g1.targeted_seats.len() implies {
            let s = #[trigger] g1.targeted_seats[k];
            g1.in_grid(s.0 as int, s.1 as int) && g1.tile(s.0 as int, s.1 as int).occupier is Some
        } by {}
    }
}

/// Setting the kind of a tile and then reading it back gives that kind.
pub proof fn set_then_read_kind(g: AircraftView, x: int, y: int, k: Variant)
    requires
        g.shaped(),
        g.in_grid(x, y),
    ensures
        g.with_tile(x, y, empty_tile(k)).tile(x, y).kind == k,
{
}

/// No passenger stands anywhere in the cabin.
pub open spec fn nobody_on_board(g: AircraftView) -> bool {
    forall|x: int, y: int| g.in_grid(x, y) ==> (#[trigger] g.layout[x][y]).occupier is None
        && g.layout[x][y].passer is None
}

proof fn idle_scan_column(g: AircraftView, x: int, n: int)
    requires
        g.shaped(),
        0 <= x < g.size.0,
        n <= g.size.1,
        g.passengers.len() == 0,
        nobody_on_board(g),
    ensures
        g.scan_column(x, n) == g,
    decreases n,
{
    if n > 0 {
        idle_scan_column(g, x, n - 1);
        assert(g.layout[x][n - 1].occupier is None);
    }
}

proof fn idle_scan(g: AircraftView, m: int)
    requires
        g.shaped(),
        m <= g.size.0,
        g.passengers.len() == 0,
        nobody_on_board(g),
    ensures
        g.scan(m, g.size.1 as int) == g,
    decreases m,
{
    if m > 0 {
        idle_scan(g, m - 1);
        idle_scan_column(g, m - 1, g.size.1 as int);
    }
}

/// A tick of a cabin with nobody waiting and nobody on board changes
/// nothing.
pub proof fn idle_tick(g: AircraftView)
    requires
        g.wf(),
        g.passengers.len() == 0,
        nobody_on_board(g),
    ensures
        g.tick() == g,
{
    idle_scan(g, g.size.0 as int);
    assert forall|x: int| 0 <= x < g.layout.len() implies #[trigger] g.cleared().layout[x] == g.layout[x] by {
        assert(g.cleared().layout[x] =~= g.layout[x]);
    }
    assert(g.cleared().layout =~= g.layout);
    assert(g.cleared() =~= g);
}

proof fn cell_step_keeps_sound(g: AircraftView, x: int, y: int)
    requires
        g.shaped(),
        g.in_grid(x, y),
        g.tiles_sound(),
    ensures
        g.cell_step(x, y).tiles_sound(),
        g.cell_step(x, y).shaped(),
        g.cell_step(x, y).size == g.size,
{
    let t = g.tile(x, y);
    assert(g.layout[x].len() == g.size.1);
    if !t.updated && t.kind != Variant::Blocked {
        let g1 = g.primary_step(x, y);
        assert(g1.tiles_sound() && g1.shaped() && g1.size == g.size) by {
            if let Some(p) = t.occupier {
                let b = g.plan(x, y, p);
                if is_step(b) {
                    let (nx, ny) = dest(b, x, y);
                    if g.in_grid(nx, ny) {
                        assert(g.layout[nx].len() == g.size.1);
                    }
                }
            }
        }
        let g2 = g1.passer_step(x, y);
        assert(g2.tiles_sound() && g2.shaped() && g2.size == g.size) by {
            let t1 = g1.tile(x, y);
            assert(g1.layout[x].len() == g.size.1);
            if let Some(p) = t1.passer {
                let b = g1.plan(x, y, p);
                if is_step(b) {
                    let (nx, ny) = dest(b, x, y);
                    if g1.in_grid(nx, ny) {
                        assert(g1.layout[nx].len() == g.size.1);
                    }
                }
            }
        }
        assert(g2.layout[x].len() == g.size.1);
    }
}

proof fn scan_column_keeps_sound(g: AircraftView, x: int, n: int)
    requires
        g.shaped(),
        0 <= x < g.size.0,
        n <= g.size.1,
        g.tiles_sound(),
    ensures
        g.scan_column(x, n).tiles_sound(),
        g.scan_column(x, n).shaped(),
        g.scan_column(x, n).size == g.size,
    decreases n,
{
    if n > 0 {
        scan_column_keeps_sound(g, x, n - 1);
        cell_step_keeps_sound(g.scan_column(x, n - 1), x, n - 1);
    }
}

proof fn scan_keeps_sound(g: AircraftView, m: int)
    requires
        g.shaped(),
        m <= g.size.0,
        g.tiles_sound(),
    ensures
        g.scan(m, g.size.1 as int).tiles_sound(),
        g.scan(m, g.size.1 as int).shaped(),
        g.scan(m, g.size.1 as int).size == g.size,
    decreases m,
{
    if m > 0 {
        scan_keeps_sound(g, m - 1);
        scan_column_keeps_sound(g.scan(m - 1, g.size.1 as int), m - 1, g.size.1 as int);
    }
}

/// A tick keeps every tile sound: a passer only squeezes in beside the
/// occupier of a seat and takes over the seat when the occupier leaves, and
/// nobody steps onto a blocked tile.
pub proof fn tick_keeps_tiles_sound(g: AircraftView)
    requires
        g.shaped(),
        g.tiles_sound(),
    ensures
        g.tick().tiles_sound(),
        g.tick().shaped(),
{
    scan_keeps_sound(g, g.size.0 as int);
    let s = g.scan(g.size.0 as int, g.size.1 as int);
    assert forall|x: int, y: int| g.tick().in_grid(x, y) implies sound(#[trigger] g.tick().layout[x][y]) by {
        assert(s.layout[x].len() == s.size.1);
        assert(s.in_grid(x, y));
    }
    assert forall|x: int| 0 <= x < g.tick().layout.len() implies #[trigger] g.tick().layout[x].len() == g.size.1 by {
        assert(s.layout[x].len() == s.size.1);
    }
}

/// How many of the passengers that `sel` picks stand on a tile.
pub open spec fn tile_count(t: TileView, sel: spec_fn(PersonView) -> bool) -> int {
    (if t.occupier is Some && sel(t.occupier.unwrap()) { 1int } else { 0int }) + (if t.passer is Some && sel(
        t.passer.unwrap(),
    ) { 1int } else { 0int })
}

/// How many of the passengers that `sel` picks wait in a queue.
pub open spec fn queue_count(q: Seq<PersonView>, sel: spec_fn(PersonView) -> bool) -> int
    decreases q.len(),
{
    if q.len() == 0 {
        0
    } else {
        queue_count(q.drop_last(), sel) + if sel(q.last()) { 1int } else { 0int }
    }
}

/// A way of picking passengers that does not look at their baggage.
pub open spec fn stow_blind(sel: spec_fn(PersonView) -> bool) -> bool {
    forall|p: PersonView| #[trigger] sel(PersonView { baggage: false, ..p }) == sel(p)
}

/// How many of the passengers that `sel` picks stand on the first `n` tiles
/// of a column.
pub open spec fn column_count(c: Seq<TileView>, n: int, sel: spec_fn(PersonView) -> bool) -> int
    decreases n,
{
    if n <= 0 {
        0
    } else {
        column_count(c, n - 1, sel) + tile_count(c[n - 1], sel)
    }
}

/// How many of the passengers that `sel` picks stand in the first `m`
/// columns.
pub open spec fn grid_count(l: Seq<Seq<TileView>>, m: int, sel: spec_fn(PersonView) -> bool) -> int
    decreases m,
{
    if m <= 0 {
        0
    } else {
        grid_count(l, m - 1, sel) + column_count(l[m - 1], l[m - 1].len() as int, sel)
    }
}

/// How many of the passengers that `sel` picks the cabin holds, waiting or
/// on board.
pub open spec fn headcount(g: AircraftView, sel: spec_fn(PersonView) -> bool) -> int {
    queue_count(g.passengers, sel) + grid_count(g.layout, g.layout.len() as int, sel)
}

proof fn column_count_update(c: Seq<TileView>, y: int, t: TileView, n: int, sel: spec_fn(PersonView) -> bool)
    requires
        0 <= y < c.len(),
        n <= c.len(),
    ensures
        column_count(c.update(y, t), n, sel) == column_count(c, n, sel) + if y < n {
            tile_count(t, sel) - tile_count(c[y], sel)
        } else {
            0
        },
    decreases n,
{
    if n > 0 {
        column_count_update(c, y, t, n - 1, sel);
    }
}

proof fn grid_count_update(l: Seq<Seq<TileView>>, x: int, c: Seq<TileView>, m: int, sel: spec_fn(PersonView) -> bool)
    requires
        0 <= x < l.len(),
        m <= l.len(),
    ensures
        grid_count(l.update(x, c), m, sel) == grid_count(l, m, sel) + if x < m {
            column_count(c, c.len() as int, sel) - column_count(l[x], l[x].len() as int, sel)
        } else {
            0
        },
    decreases m,
{
    if m > 0 {
        grid_count_update(l, x, c, m - 1, sel);
    }
}

proof fn headcount_with_tile(g: AircraftView, x: int, y: int, t: TileView, sel: spec_fn(PersonView) -> bool)
    requires
        g.shaped(),
        g.in_grid(x, y),
    ensures
        headcount(g.with_tile(x, y, t), sel) == headcount(g, sel) + tile_count(t, sel) - tile_count(g.tile(x, y), sel),
        g.with_tile(x, y, t).shaped(),
{
    assert(g.layout[x].len() == g.size.1);
    column_count_update(g.layout[x], y, t, g.layout[x].len() as int, sel);
    grid_count_update(g.layout, x, g.layout[x].update(y, t), g.layout.len() as int, sel);
}

proof fn cell_step_keeps_headcount(g: AircraftView, x: int, y: int, sel: spec_fn(PersonView) -> bool)
    requires
        stow_blind(sel),
        g.shaped(),
        g.in_grid(x, y),
    ensures
        headcount(g.cell_step(x, y), sel) == headcount(g, sel),
        g.cell_step(x, y).shaped(),
        g.cell_step(x, y).size == g.size,
{
    let t = g.tile(x, y);
    assert(g.layout[x].len() == g.size.1);
    if !t.updated && t.kind != Variant::Blocked {
        let g1 = g.primary_step(x, y);
        assert(headcount(g1, sel) == headcount(g, sel) && g1.shaped() && g1.size == g.size) by {
            if let Some(p) = t.occupier {
                let b = g.plan(x, y, p);
                if b == Behaviour::Stow {
                    headcount_with_tile(g, x, y, TileView { occupier: Some(PersonView { baggage: false, ..p }), ..t }, sel);
                } else if is_step(b) {
                    let (nx, ny) = dest(b, x, y);
                    if g.in_grid(nx, ny) && (nx != x || ny != y) {
                        let d = g.tile(nx, ny);
                        let ga = g.with_tile(x, y, freed(t));
                        headcount_with_tile(g, x, y, freed(t), sel);
                        assert(g.layout[nx].len() == g.size.1);
                        assert(ga.tile(nx, ny) == d);
                        if d.kind == Variant::Blocked {
                        } else if d.occupier is None {
                            headcount_with_tile(ga, nx, ny, occupied_by(d, p), sel);
                        } else if d.passer is None && d.kind == Variant::Seat {
                            headcount_with_tile(ga, nx, ny, passed_in(d, p), sel);
                        }
                    }
                }
            }
        }
        let g2 = g1.passer_step(x, y);
        assert(headcount(g2, sel) == headcount(g, sel) && g2.shaped() && g2.size == g.size) by {
            let t1 = g1.tile(x, y);
            assert(g1.layout[x].len() == g.size.1);
            if let Some(p) = t1.passer {
                if t1.pass_count {
                    let b = g1.plan(x, y, p);
                    if b == Behaviour::Stow {
                        headcount_with_tile(g1, x, y, TileView { passer: Some(PersonView { baggage: false, ..p }), ..t1 }, sel);
                    } else if is_step(b) {
                        let (nx, ny) = dest(b, x, y);
                        if g1.in_grid(nx, ny) && (nx != x || ny != y) {
                            let d = g1.tile(nx, ny);
                            let ga = g1.with_tile(x, y, passed_out(t1));
                            headcount_with_tile(g1, x, y, passed_out(t1), sel);
                            assert(g1.layout[nx].len() == g.size.1);
                            assert(ga.tile(nx, ny) == d);
                            if d.kind == Variant::Blocked {
                            } else if d.occupier is None {
                                headcount_with_tile(ga, nx, ny, occupied_by(d, p), sel);
                            } else if d.passer is None && d.kind == Variant::Seat {
                                headcount_with_tile(ga, nx, ny, passed_in(d, p), sel);
                            }
                        }
                    }
                }
            }
        }
        let t2 = g2.tile(x, y);
        assert(g2.layout[x].len() == g.size.1);
        if t2.kind == Variant::Entrance && g2.passengers.len() > 0 && t2.occupier is None {
            headcount_with_tile(g2, x, y, occupied_by(t2, g2.passengers.last()), sel);
        }
    }
}

proof fn scan_column_keeps_headcount(g: AircraftView, x: int, n: int, sel: spec_fn(PersonView) -> bool)
    requires
        stow_blind(sel),
        g.shaped(),
        0 <= x < g.size.0,
        n <= g.size.1,
    ensures
        headcount(g.scan_column(x, n), sel) == headcount(g, sel),
        g.scan_column(x, n).shaped(),
        g.scan_column(x, n).size == g.size,
    decreases n,
{
    if n > 0 {
        scan_column_keeps_headcount(g, x, n - 1, sel);
        cell_step_keeps_headcount(g.scan_column(x, n - 1), x, n - 1, sel);
    }
}

proof fn scan_keeps_headcount(g: AircraftView, m: int, sel: spec_fn(PersonView) -> bool)
    requires
        stow_blind(sel),
        g.shaped(),
        m <= g.size.0,
    ensures
        headcount(g.scan(m, g.size.1 as int), sel) == headcount(g, sel),
        g.scan(m, g.size.1 as int).shaped(),
        g.scan(m, g.size.1 as int).size == g.size,
    decreases m,
{
    if m > 0 {
        scan_keeps_headcount(g, m - 1, sel);
        scan_column_keeps_headcount(g.scan(m - 1, g.size.1 as int), m - 1, g.size.1 as int, sel);
    }
}

proof fn column_count_unmarked(c: Seq<TileView>, n: int, sel: spec_fn(PersonView) -> bool)
    requires
        n <= c.len(),
    ensures
        column_count(c.map_values(|t: TileView| unmarked(t)), n, sel) == column_count(c, n, sel),
    decreases n,
{
    if n > 0 {
        column_count_unmarked(c, n - 1, sel);
    }
}

proof fn grid_count_cleared(g: AircraftView, m: int, sel: spec_fn(PersonView) -> bool)
    requires
        m <= g.layout.len(),
    ensures
        grid_count(g.cleared().layout, m, sel) == grid_count(g.layout, m, sel),
    decreases m,
{
    if m > 0 {
        grid_count_cleared(g, m - 1, sel);
        column_count_unmarked(g.layout[m - 1], g.layout[m - 1].len() as int, sel);
    }
}

/// A tick neither loses nor copies a passenger: for any way of picking
/// passengers that ignores baggage (all of them, or those of one name), the
/// cabin holds as many picked passengers, waiting or on board as occupier or
/// passer, after the tick as before.
pub proof fn tick_keeps_headcount(g: AircraftView, sel: spec_fn(PersonView) -> bool)
    requires
        stow_blind(sel),
        g.shaped(),
    ensures
        headcount(g.tick(), sel) == headcount(g, sel),
{
    scan_keeps_headcount(g, g.size.0 as int, sel);
    let s = g.scan(g.size.0 as int, g.size.1 as int);
    grid_count_cleared(s, s.layout.len() as int, sel);
}

/// Picks the passengers of one name.
pub open spec fn named(n: Seq<char>) -> spec_fn(PersonView) -> bool {
    |p: PersonView| p.name == n
}

/// How many passengers of name `n` the cabin holds, waiting or on board.
pub open spec fn name_count(g: AircraftView, n: Seq<char>) -> int {
    headcount(g, named(n))
}

/// Each passenger of the cabin is in one place only: no name is held twice,
/// whether in two tiles, in both slots of one tile, or on board and in the
/// queue at once.
pub open spec fn in_one_place(g: AircraftView) -> bool {
    forall|n: Seq<char>| #[trigger] name_count(g, n) <= 1
}

/// A tick never puts a passenger in two places: where every passenger
/// (told apart by name) is in one place before the tick, each is in one
/// place after it.
pub proof fn tick_keeps_each_in_one_place(g: AircraftView)
    requires
        g.shaped(),
        in_one_place(g),
    ensures
        in_one_place(g.tick()),
{
    assert forall|n: Seq<char>| #[trigger] name_count(g.tick(), n) <= 1 by {
        assert(name_count(g, n) <= 1);
        tick_keeps_headcount(g, named(n));
    }
}

} // verus!
