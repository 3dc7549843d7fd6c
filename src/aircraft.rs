//! The cabin: a grid of tiles, the boarding queue, and the tick that moves
//! every passenger on board at most once.

use vstd::prelude::*;
use crate::person::{Behaviour, Person, PersonView};
use crate::tile::{
    Tile, TileView, Variant, empty_tile, freed, occupied_by, passed_in, passed_out, sound,
};

verus! {

/// The number of ticks `run_to_completion` tries before giving up.
pub const MAX_ITERATIONS: u16 = 1000;

/// The cell that a directional move leads to from `(x, y)`.
pub open spec fn dest(b: Behaviour, x: int, y: int) -> (int, int) {
    match b {
        Behaviour::Move_North => (x, y - 1),
        Behaviour::Move_South => (x, y + 1),
        Behaviour::Move_East => (x + 1, y),
        Behaviour::Move_West => (x - 1, y),
        _ => (x, y),
    }
}

pub open spec fn is_step(b: Behaviour) -> bool {
    b == Behaviour::Move_North || b == Behaviour::Move_South || b == Behaviour::Move_East
        || b == Behaviour::Move_West
}

/// A whole cabin as a mathematical value. `layout[x][y]` is the tile at
/// column `x`, row `y`.
#[verifier::ext_equal]
pub struct AircraftView {
    pub size: (u16, u16),
    pub layout: Seq<Seq<TileView>>,
    pub passengers: Seq<PersonView>,
    pub targeted_seats: Seq<(u16, u16)>,
}

impl AircraftView {
    pub open spec fn in_grid(self, x: int, y: int) -> bool {
        0 <= x < self.size.0 && 0 <= y < self.size.1
    }

    pub open spec fn tile(self, x: int, y: int) -> TileView {
        self.layout[x][y]
    }

    /// The grid has `size.0` columns of `size.1` tiles each.
    pub open spec fn shaped(self) -> bool {
        &&& self.layout.len() == self.size.0
        &&& forall|x: int| 0 <= x < self.layout.len() ==> #[trigger] self.layout[x].len() == self.size.1
    }

    /// Every tile is sound: a passer only on a seat beside its occupier,
    /// nobody on a blocked tile.
    pub open spec fn tiles_sound(self) -> bool {
        forall|x: int, y: int| self.in_grid(x, y) ==> sound(#[trigger] self.layout[x][y])
    }

    /// Shaped, every tile sound, and no tile carries a mark of the tick in
    /// progress.
    pub open spec fn wf(self) -> bool {
        &&& self.shaped()
        &&& self.tiles_sound()
        &&& forall|x: int, y: int| self.in_grid(x, y) ==> !(#[trigger] self.layout[x][y]).updated
    }

    pub open spec fn with_tile(self, x: int, y: int, t: TileView) -> AircraftView {
        AircraftView { layout: self.layout.update(x, self.layout[x].update(y, t)), ..self }
    }

    /// A passenger in the aisle may step onto `(dx, dy)`: it lies in the grid,
    /// is not blocked, and has no occupier or is a seat with no passer yet.
    pub open spec fn may_enter(self, dx: int, dy: int) -> bool {
        &&& self.in_grid(dx, dy)
        &&& self.tile(dx, dy).kind != Variant::Blocked
        &&& (self.tile(dx, dy).occupier is None || (self.tile(dx, dy).kind == Variant::Seat
            && self.tile(dx, dy).passer is None))
    }

    /// The move chosen by a passenger on `(i, j)` heading for `(tx, ty)`:
    /// the allowed move that brings the passenger strictly closer, by
    /// Manhattan distance, to the target, else `Wait`. In the aisle a
    /// passenger only moves sideways on the target row, and first stows
    /// baggage there; on a seat only sideways moves are considered, and the
    /// neighbour is not looked at. A move off the grid is never chosen.
    pub open spec fn best_move(self, i: int, j: int, tx: int, ty: int, baggage: bool) -> Behaviour {
        let k = self.tile(i, j).kind;
        if k == Variant::Aisle || k == Variant::Entrance {
            if ty == j && baggage {
                Behaviour::Stow
            } else if ty < j && self.may_enter(i, j - 1) {
                Behaviour::Move_North
            } else if ty > j && self.may_enter(i, j + 1) {
                Behaviour::Move_South
            } else if ty == j && tx > i && self.may_enter(i + 1, j) {
                Behaviour::Move_East
            } else if ty == j && tx < i && self.may_enter(i - 1, j) {
                Behaviour::Move_West
            } else {
                Behaviour::Wait
            }
        } else if k == Variant::Seat {
            if tx > i && self.in_grid(i + 1, j) {
                Behaviour::Move_East
            } else if tx < i {
                Behaviour::Move_West
            } else {
                Behaviour::Wait
            }
        } else {
            Behaviour::Wait
        }
    }

    /// The move of passenger `p` standing on `(x, y)`; one without a target
    /// waits.
    pub open spec fn plan(self, x: int, y: int, p: PersonView) -> Behaviour {
        match p.seat {
            Some(s) => self.best_move(x, y, s.0 as int, s.1 as int, p.baggage),
            None => Behaviour::Wait,
        }
    }

    /// The occupier of `(x, y)` acts.
    pub open spec fn primary_step(self, x: int, y: int) -> AircraftView {
        let t = self.tile(x, y);
        match t.occupier {
            None => self,
            Some(p) => {
                let b = self.plan(x, y, p);
                if b == Behaviour::Stow {
                    self.with_tile(x, y, TileView { occupier: Some(PersonView { baggage: false, ..p }), ..t })
                } else if is_step(b) {
                    let (nx, ny) = dest(b, x, y);
                    let d = self.tile(nx, ny);
                    if d.kind == Variant::Blocked {
                        self
                    } else if d.occupier is None {
                        self.with_tile(x, y, freed(t)).with_tile(nx, ny, occupied_by(d, p))
                    } else if d.passer is None && d.kind == Variant::Seat {
                        self.with_tile(x, y, freed(t)).with_tile(nx, ny, passed_in(d, p))
                    } else {
                        self
                    }
                } else {
                    self
                }
            },
        }
    }

    /// The passer on `(x, y)`, if it has not acted yet, acts.
    pub open spec fn passer_step(self, x: int, y: int) -> AircraftView {
        let t = self.tile(x, y);
        match t.passer {
            None => self,
            Some(p) => if !t.pass_count {
                self
            } else {
                let b = self.plan(x, y, p);
                if b == Behaviour::Stow {
                    self.with_tile(x, y, TileView { passer: Some(PersonView { baggage: false, ..p }), ..t })
                } else if is_step(b) {
                    let (nx, ny) = dest(b, x, y);
                    let d = self.tile(nx, ny);
                    if d.kind == Variant::Blocked {
                        self
                    } else if d.occupier is None {
                        self.with_tile(x, y, passed_out(t)).with_tile(nx, ny, occupied_by(d, p))
                    } else if d.passer is None && d.kind == Variant::Seat {
                        self.with_tile(x, y, passed_out(t)).with_tile(nx, ny, passed_in(d, p))
                    } else {
                        self
                    }
                } else {
                    self
                }
            },
        }
    }

    /// A free entrance takes the passenger at the tail of the queue.
    pub open spec fn board_at(self, x: int, y: int) -> AircraftView {
        let t = self.tile(x, y);
        if t.kind == Variant::Entrance && self.passengers.len() > 0 && t.occupier is None {
            AircraftView {
                passengers: self.passengers.drop_last(),
                ..self.with_tile(x, y, occupied_by(t, self.passengers.last()))
            }
        } else {
            self
        }
    }

    /// Everything that happens at `(x, y)` during the scan.
    pub open spec fn cell_step(self, x: int, y: int) -> AircraftView {
        let t = self.tile(x, y);
        if !t.updated && t.kind != Variant::Blocked {
            self.primary_step(x, y).passer_step(x, y).board_at(x, y)
        } else {
            self
        }
    }

    /// The scan of rows `0..n` of column `x`.
    pub open spec fn scan_column(self, x: int, n: int) -> AircraftView
        decreases n,
    {
        if n <= 0 {
            self
        } else {
            self.scan_column(x, n - 1).cell_step(x, n - 1)
        }
    }

    /// The scan of columns `0..m`, each of `h` rows.
    pub open spec fn scan(self, m: int, h: int) -> AircraftView
        decreases m,
    {
        if m <= 0 {
            self
        } else {
            self.scan(m - 1, h).scan_column(m - 1, h)
        }
    }

    /// Every tile's `updated` mark taken off.
    pub open spec fn cleared(self) -> AircraftView {
        AircraftView {
            layout: self.layout.map_values(|c: Seq<TileView>| c.map_values(|t: TileView| unmarked(t))),
            ..self
        }
    }

    /// One tick: the row-major scan of the whole grid, then the marks cleared.
    pub open spec fn tick(self) -> AircraftView {
        self.scan(self.size.0 as int, self.size.1 as int).cleared()
    }

    /// `n` ticks in a row.
    pub open spec fn ticks(self, n: nat) -> AircraftView
        decreases n,
    {
        if n == 0 {
            self
        } else {
            self.ticks((n - 1) as nat).tick()
        }
    }

    /// Every targeted seat lies in the grid and has an occupier.
    pub open spec fn complete(self) -> bool {
        forall|k: int| 0 <= k < self.targeted_seats.len() ==> {
            let s = #[trigger] self.targeted_seats[k];
            self.in_grid(s.0 as int, s.1 as int) && self.tile(s.0 as int, s.1 as int).occupier is Some
        }
    }
}

/// A tile with its `updated` mark taken off.
pub open spec fn unmarked(t: TileView) -> TileView {
    TileView { updated: false, ..t }
}

/// A grid of `w` columns of `h` empty aisle tiles.
pub open spec fn all_aisle(w: int, h: int) -> Seq<Seq<TileView>> {
    Seq::new(w as nat, |x: int| Seq::new(h as nat, |y: int| empty_tile(Variant::Aisle)))
}

/// The view of a grid of tiles.
pub open spec fn layout_view(l: Seq<Vec<Tile>>) -> Seq<Seq<TileView>> {
    Seq::new(l.len(), |x: int| Seq::new(l[x]@.len(), |y: int| l[x]@[y]@))
}

/// The view of one column of tiles.
pub open spec fn column_view(v: Vec<Tile>) -> Seq<TileView> {
    Seq::new(v@.len(), |y: int| v@[y]@)
}

/// Takes the `updated` mark off every tile of a column.
fn unmark_column(col: &mut Vec<Tile>)
    ensures
        column_view(*final(col)) == column_view(*old(col)).map_values(|t: TileView| unmarked(t)),
{
    let ghost c0 = *col;
    let n = col.len();
    let mut r: usize = 0;
    while r < n
        invariant
            r <= n,
            n == c0@.len(),
            col@.len() == n,
            forall|k: int| 0 <= k < r ==> (#[trigger] col@[k])@ == unmarked(c0@[k]@),
            forall|k: int| r <= k < n ==> #[trigger] col@[k] == c0@[k],
        decreases n - r,
    {
        col[r].set_updated(false);
        r += 1;
    }
    assert(column_view(*col) =~= column_view(c0).map_values(|t: TileView| unmarked(t)));
}

/// The view of a queue of passengers.
pub open spec fn queue_view(q: Seq<Person>) -> Seq<PersonView> {
    Seq::new(q.len(), |k: int| q[k]@)
}

/// A simulated cabin: the grid, the passengers waiting to board, and the
/// seats that must all be taken for boarding to be complete.
pub struct Aircraft {
    size: (u16, u16),
    layout: Vec<Vec<Tile>>,
    passengers: Vec<Person>,
    targeted_seats: Vec<(u16, u16)>,
}

impl View for Aircraft {
    type V = AircraftView;

    closed spec fn view(&self) -> AircraftView {
        AircraftView {
            size: self.size,
            layout: layout_view(self.layout@),
            passengers: queue_view(self.passengers@),
            targeted_seats: self.targeted_seats@,
        }
    }
}

impl Aircraft {
    /// The tile at `(x, y)`, to be changed in place.
    fn tile_mut(&mut self, x: usize, y: usize) -> (t: &mut Tile)
        requires
            old(self)@.shaped(),
            old(self)@.in_grid(x as int, y as int),
        ensures
            t@ == old(self)@.tile(x as int, y as int),
            final(self)@ =~~= old(self)@.with_tile(x as int, y as int, final(t)@),
            final(self)@.shaped(),
            final(self)@.size == old(self)@.size,
    {
        let ghost g = self@;
        assert(g.layout[x as int].len() == self.layout@[x as int]@.len());
        assert(g.tile(x as int, y as int) == self.layout@[x as int]@[y as int]@);
        &mut self.layout[x][y]
    }

    /// The tile at `(x, y)`.
    fn tile_ref(&self, x: usize, y: usize) -> (t: &Tile)
        requires
            self@.shaped(),
            self@.in_grid(x as int, y as int),
        ensures
            t@ == self@.tile(x as int, y as int),
    {
        assert(self@.layout[x as int].len() == self.layout@[x as int]@.len());
        &self.layout[x][y]
    }

    /// Whether a passenger may step onto `(dx, dy)`, which lies in the grid.
    fn may_enter(&self, dx: usize, dy: usize) -> (r: bool)
        requires
            self@.shaped(),
            self@.in_grid(dx as int, dy as int),
        ensures
            r == self@.may_enter(dx as int, dy as int),
    {
        let t = self.tile_ref(dx, dy);
        t.get_variant() != Variant::Blocked && (!t.is_occupied() || (t.get_variant() == Variant::Seat
            && !t.is_allowing()))
    }

    /// Determines the best move for a passenger on `(i, j)` heading for
    /// `(target_x, target_y)`.
    ///
    /// Each candidate is weighed in the order Wait, North, South, East, West
    /// by the Manhattan distance from where it leads to the target; a
    /// candidate replaces the best so far only when strictly closer.
    fn determine_move(&self, i: usize, j: usize, target_x: u16, target_y: u16, baggage: bool) -> (r: Behaviour)
        requires
            self@.shaped(),
            self@.in_grid(i as int, j as int),
        ensures
            r == self@.best_move(i as int, j as int, target_x as int, target_y as int, baggage),
    {
        let w = self.size.0 as usize;
        let h = self.size.1 as usize;
        let tx = target_x as i64;
        let ty = target_y as i64;
        let ci = i as i64;
        let cj = j as i64;
        let kind = self.tile_ref(i, j).get_variant();
        let mut best = Behaviour::Wait;
        let mut best_d: i64 = distance(ci, cj, tx, ty);
        if kind == Variant::Aisle || kind == Variant::Entrance {
            if ty == cj && baggage {
                return Behaviour::Stow;
            }
            if j > 0 {
                let d = distance(ci, cj - 1, tx, ty);
                if d < best_d && self.may_enter(i, j - 1) {
                    best = Behaviour::Move_North;
                    best_d = d;
                }
            }
            if j + 1 < h {
                let d = distance(ci, cj + 1, tx, ty);
                if d < best_d && self.may_enter(i, j + 1) {
                    best = Behaviour::Move_South;
                    best_d = d;
                }
            }
            // Sideways moves only on the target row.
            if i + 1 < w && cj == ty {
                let d = distance(ci + 1, cj, tx, ty);
                if d < best_d && self.may_enter(i + 1, j) {
                    best = Behaviour::Move_East;
                    best_d = d;
                }
            }
            if i > 0 && cj == ty {
                let d = distance(ci - 1, cj, tx, ty);
                if d < best_d && self.may_enter(i - 1, j) {
                    best = Behaviour::Move_West;
                }
            }
        } else if kind == Variant::Seat {
            // A seated passenger trusts the row to be seats and checks no
            // neighbour.
            if i + 1 < w {
                let d = distance(ci + 1, cj, tx, ty);
                if d < best_d {
                    best = Behaviour::Move_East;
                    best_d = d;
                }
            }
            if i > 0 {
                let d = distance(ci - 1, cj, tx, ty);
                if d < best_d {
                    best = Behaviour::Move_West;
                }
            }
        }
        best
    }
}

impl Aircraft {
    /// A step chosen by `determine_move` stays in the grid.
    proof fn lemma_step_in_grid(g: AircraftView, i: int, j: int, tx: int, ty: int, baggage: bool)
        requires
            g.in_grid(i, j),
            0 <= tx,
        ensures
            is_step(g.best_move(i, j, tx, ty, baggage)) ==> g.in_grid(dest(g.best_move(i, j, tx, ty, baggage), i, j).0, dest(g.best_move(i, j, tx, ty, baggage), i, j).1),
    {
    }

    /// The move of passenger with the given target and baggage on `(x, y)`.
    fn plan(&self, x: usize, y: usize, seat: Option<(u16, u16)>, baggage: bool) -> (r: Behaviour)
        requires
            self@.shaped(),
            self@.in_grid(x as int, y as int),
        ensures
            forall|p: PersonView| p.seat == seat && p.baggage == baggage ==> r == #[trigger] self@.plan(x as int, y as int, p),
            is_step(r) ==> self@.in_grid(dest(r, x as int, y as int).0, dest(r, x as int, y as int).1),
    {
        match seat {
            Some((tx, ty)) => {
                let r = self.determine_move(x, y, tx, ty, baggage);
                proof {
                    Self::lemma_step_in_grid(self@, x as int, y as int, tx as int, ty as int, baggage);
                }
                r
            },
            None => Behaviour::Wait,
        }
    }

    /// The occupier of `(x, y)` acts.
    fn primary_step(&mut self, x: usize, y: usize)
        requires
            old(self)@.shaped(),
            old(self)@.in_grid(x as int, y as int),
        ensures
            final(self)@ == old(self)@.primary_step(x as int, y as int),
            final(self)@.shaped(),
            final(self)@.size == old(self)@.size,
    {
        match self.tile_ref(x, y).occupier_plan() {
            None => {},
            Some((seat, baggage)) => {
                let b = self.plan(x, y, seat, baggage);
                if b == Behaviour::Stow {
                    self.tile_mut(x, y).stow_occupier();
                } else if b != Behaviour::Wait {
                    let (nx, ny) = dest_of(b, x, y);
                    let d = self.tile_ref(nx, ny);
                    if d.get_variant() == Variant::Blocked {
                        // Nobody steps onto a blocked tile: wait.
                    } else if !d.is_occupied() {
                        let p = self.tile_mut(x, y).free();
                        self.tile_mut(nx, ny).occupy(p);
                    } else if !d.is_allowing() && d.get_variant() == Variant::Seat {
                        let p = self.tile_mut(x, y).free();
                        self.tile_mut(nx, ny).pass_in(p);
                    }
                }
            },
        }
    }

    /// The passer on `(x, y)`, if it has not acted yet, acts.
    fn passer_step(&mut self, x: usize, y: usize)
        requires
            old(self)@.shaped(),
            old(self)@.in_grid(x as int, y as int),
        ensures
            final(self)@ == old(self)@.passer_step(x as int, y as int),
            final(self)@.shaped(),
            final(self)@.size == old(self)@.size,
    {
        if !self.tile_ref(x, y).pass_count() {
            return;
        }
        match self.tile_ref(x, y).passer_plan() {
            None => {},
            Some((seat, baggage)) => {
                let b = self.plan(x, y, seat, baggage);
                if b == Behaviour::Stow {
                    self.tile_mut(x, y).stow_passer();
                } else if b != Behaviour::Wait {
                    let (nx, ny) = dest_of(b, x, y);
                    let d = self.tile_ref(nx, ny);
                    if d.get_variant() == Variant::Blocked {
                        // Nobody steps onto a blocked tile: wait.
                    } else if !d.is_occupied() {
                        let p = self.tile_mut(x, y).pass_out();
                        self.tile_mut(nx, ny).occupy(p);
                    } else if !d.is_allowing() && d.get_variant() == Variant::Seat {
                        let p = self.tile_mut(x, y).pass_out();
                        self.tile_mut(nx, ny).pass_in(p);
                    }
                }
            },
        }
    }

    /// A free entrance at `(x, y)` takes the passenger at the tail of the
    /// queue.
    fn board_at(&mut self, x: usize, y: usize)
        requires
            old(self)@.shaped(),
            old(self)@.in_grid(x as int, y as int),
        ensures
            final(self)@ == old(self)@.board_at(x as int, y as int),
            final(self)@.shaped(),
            final(self)@.size == old(self)@.size,
    {
        let ghost g = self@;
        let t = self.tile_ref(x, y);
        if t.get_variant() == Variant::Entrance && self.passengers.len() > 0 && !t.is_occupied() {
            let p = self.passengers.pop().unwrap();
            assert(queue_view(self.passengers@) =~= g.passengers.drop_last());
            self.tile_mut(x, y).occupy(p);
        }
    }

    /// Everything that happens at `(x, y)` during the scan.
    fn update_cell(&mut self, x: usize, y: usize)
        requires
            old(self)@.shaped(),
            old(self)@.in_grid(x as int, y as int),
        ensures
            final(self)@ == old(self)@.cell_step(x as int, y as int),
            final(self)@.shaped(),
            final(self)@.size == old(self)@.size,
    {
        let t = self.tile_ref(x, y);
        if t.has_updated() || t.get_variant() == Variant::Blocked {
            return;
        }
        self.primary_step(x, y);
        self.passer_step(x, y);
        self.board_at(x, y);
    }
}

impl Aircraft {
    /// An empty cabin of `x` columns and `y` rows, every tile an aisle.
    pub fn new(x: u16, y: u16) -> (r: Aircraft)
        ensures
            r@ == (AircraftView {
                size: (x, y),
                layout: all_aisle(x as int, y as int),
                passengers: Seq::empty(),
                targeted_seats: Seq::empty(),
            }),
            r@.wf(),
    {
        let mut aircraft = Aircraft {
            size: (x, y),
            layout: Vec::new(),
            passengers: Vec::new(),
            targeted_seats: Vec::new(),
        };
        aircraft.clear();
        assert(queue_view(aircraft.passengers@) =~= Seq::empty());
        aircraft
    }

    /// Resets every tile to an empty aisle.
    fn clear(&mut self)
        ensures
            final(self)@ == (AircraftView { layout: all_aisle(old(self)@.size.0 as int, old(self)@.size.1 as int), ..old(self)@ }),
    {
        let w = self.size.0;
        let h = self.size.1;
        let mut layout: Vec<Vec<Tile>> = Vec::new();
        let mut i: u16 = 0;
        while i < w
            invariant
                i <= w,
                layout@.len() == i,
                forall|c: int| 0 <= c < i ==> (#[trigger] layout@[c])@.len() == h,
                forall|c: int, r: int| 0 <= c < i && 0 <= r < h ==> (#[trigger] layout@[c]@[r])@ == empty_tile(Variant::Aisle),
            decreases w - i,
        {
            let mut column: Vec<Tile> = Vec::new();
            let mut j: u16 = 0;
            while j < h
                invariant
                    j <= h,
                    column@.len() == j,
                    forall|k: int| 0 <= k < j ==> (#[trigger] column@[k])@ == empty_tile(Variant::Aisle),
                decreases h - j,
            {
                column.push(Tile::aisle());
                j += 1;
            }
            layout.push(column);
            i += 1;
        }
        self.layout = layout;
        assert(self@.layout =~~= all_aisle(w as int, h as int));
    }

    /// Adds a passenger to the tail of the boarding queue; their seat, if
    /// any, joins the seats that must be taken.
    pub fn add_passenger(&mut self, p: Person)
        ensures
            final(self)@ == (AircraftView {
                passengers: old(self)@.passengers.push(p@),
                targeted_seats: match p@.seat {
                    Some(s) => old(self)@.targeted_seats.push(s),
                    None => old(self)@.targeted_seats,
                },
                ..old(self)@
            }),
    {
        let ghost g = self@;
        let seat = p.get_seat();
        if seat.is_some() {
            self.targeted_seats.push(seat.unwrap());
        }
        self.passengers.push(p);
        assert(queue_view(self.passengers@) =~= g.passengers.push(p@));
    }

    /// Advances the simulation by one tick: every tile is visited once, in
    /// row-major order with columns outermost, then all marks are cleared.
    pub fn update(&mut self)
        requires
            old(self)@.wf(),
        ensures
            final(self)@ == old(self)@.tick(),
            final(self)@.wf(),
    {
        let ghost g = self@;
        let w = self.size.0 as usize;
        let h = self.size.1 as usize;
        let mut x: usize = 0;
        while x < w
            invariant
                x <= w,
                w == g.size.0,
                h == g.size.1,
                self@.shaped(),
                self@.size == g.size,
                self@ == g.scan(x as int, h as int),
            decreases w - x,
        {
            let mut y: usize = 0;
            while y < h
                invariant
                    y <= h,
                    x < w,
                    w == g.size.0,
                    h == g.size.1,
                    self@.shaped(),
                    self@.size == g.size,
                    self@ == g.scan(x as int, h as int).scan_column(x as int, y as int),
                decreases h - y,
            {
                self.update_cell(x, y);
                y += 1;
            }
            x += 1;
        }
        proof {
            crate::facts::tick_keeps_tiles_sound(g);
        }
        self.reset();
    }

    /// Takes every tile's `updated` mark off.
    fn reset(&mut self)
        requires
            old(self)@.shaped(),
        ensures
            final(self)@ == old(self)@.cleared(),
            final(self)@.shaped(),
            forall|x: int, y: int| final(self)@.in_grid(x, y) ==> !(#[trigger] final(self)@.layout[x][y]).updated,
    {
        let ghost g = self@;
        let ghost l = self.layout@;
        let w = self.size.0 as usize;
        let mut x: usize = 0;
        while x < w
            invariant
                x <= w,
                w == g.size.0,
                g == old(self)@,
                l.len() == w,
                self.size == g.size,
                self.passengers == old(self).passengers,
                self.targeted_seats == old(self).targeted_seats,
                self.layout@.len() == w,
                forall|c: int| 0 <= c < x ==> column_view(#[trigger] self.layout@[c]) == column_view(l[c]).map_values(|t: TileView| unmarked(t)),
                forall|c: int| x <= c < w ==> #[trigger] self.layout@[c] == l[c],
            decreases w - x,
        {
            unmark_column(&mut self.layout[x]);
            x += 1;
        }
        assert forall|c: int| 0 <= c < w implies #[trigger] self@.layout[c] =~= g.cleared().layout[c] by {
            assert(self@.layout[c] == column_view(self.layout@[c]));
            assert(g.layout[c] == column_view(l[c]));
        }
        assert(self@.layout =~= g.cleared().layout);
    }

    /// Whether every targeted seat is occupied.
    pub fn is_complete(&self) -> (r: bool)
        requires
            self@.shaped(),
        ensures
            r == self@.complete(),
    {
        let mut complete: bool = true;
        let n = self.targeted_seats.len();
        let mut k: usize = 0;
        while k < n
            invariant
                k <= n,
                n == self@.targeted_seats.len(),
                self@.shaped(),
                complete == forall|m: int| 0 <= m < k ==> {
                    let s = #[trigger] self@.targeted_seats[m];
                    self@.in_grid(s.0 as int, s.1 as int) && self@.tile(s.0 as int, s.1 as int).occupier is Some
                },
            decreases n - k,
        {
            let (x, y) = self.targeted_seats[k];
            if x >= self.size.0 || y >= self.size.1 || !self.tile_ref(x as usize, y as usize).is_occupied() {
                complete = false;
            }
            k += 1;
        }
        complete
    }

    /// Updates the aircraft until every targeted seat is taken, trying at most
    /// `MAX_ITERATIONS` ticks; returns how many ticks it took.
    pub fn run_to_completion(&mut self) -> (r: Result<u16, &'static str>)
        requires
            old(self)@.wf(),
        ensures
            final(self)@.wf(),
            match r {
                Ok(k) => {
                    &&& k <= MAX_ITERATIONS
                    &&& final(self)@ == old(self)@.ticks(k as nat)
                    &&& final(self)@.complete()
                    &&& forall|m: nat| m < k ==> !(#[trigger] old(self)@.ticks(m)).complete()
                },
                Err(e) => {
                    &&& e@ == "Passengers could not all be seated."@
                    &&& final(self)@ == old(self)@.ticks(MAX_ITERATIONS as nat)
                    &&& forall|m: nat| m <= MAX_ITERATIONS ==> !(#[trigger] old(self)@.ticks(m)).complete()
                },
            },
    {
        let ghost g = self@;
        let mut iterations: u16 = 0;
        while !self.is_complete() && iterations < MAX_ITERATIONS
            invariant
                iterations <= MAX_ITERATIONS,
                self@.wf(),
                self@ == g.ticks(iterations as nat),
                forall|m: nat| m < iterations ==> !(#[trigger] g.ticks(m)).complete(),
            decreases MAX_ITERATIONS - iterations,
        {
            self.update();
            iterations += 1;
        }
        if self.is_complete() {
            Ok(iterations)
        } else {
            Err("Passengers could not all be seated.")
        }
    }

    /// Replaces the tile at `(x, y)` with an empty tile of kind `var`.
    pub fn set_tile(&mut self, x: u16, y: u16, var: Variant)
        requires
            old(self)@.shaped(),
            old(self)@.in_grid(x as int, y as int),
        ensures
            final(self)@ == old(self)@.with_tile(x as int, y as int, empty_tile(var)),
            final(self)@.shaped(),
            old(self)@.wf() ==> final(self)@.wf(),
    {
        let ghost g = self@;
        *self.tile_mut(x as usize, y as usize) = Tile::new(var);
        proof {
            if g.wf() {
                assert forall|c: int, r: int| self@.in_grid(c, r) implies !(#[trigger] self@.layout[c][r]).updated by {
                    assert(g.layout[c].len() == g.size.1);
                    assert(g.layout[x as int].len() == g.size.1);
                    if c != x || r != y {
                        assert(self@.layout[c][r] == g.layout[c][r]);
                    }
                }
            }
        }
    }

    pub fn get_size(&self) -> (r: (u16, u16))
        ensures
            r == self@.size,
    {
        (self.size.0, self.size.1)
    }

    pub fn get_tile_variant(&self, x: u16, y: u16) -> (r: Variant)
        requires
            self@.shaped(),
            self@.in_grid(x as int, y as int),
        ensures
            r == self@.tile(x as int, y as int).kind,
    {
        self.tile_ref(x as usize, y as usize).get_variant()
    }

    pub fn check_if_occupied(&self, x: u16, y: u16) -> (r: bool)
        requires
            self@.shaped(),
            self@.in_grid(x as int, y as int),
        ensures
            r == self@.tile(x as int, y as int).occupier is Some,
            self@.wf() && r ==> self@.tile(x as int, y as int).kind != Variant::Blocked,
    {
        self.tile_ref(x as usize, y as usize).is_occupied()
    }

    pub fn check_if_allowing(&self, x: u16, y: u16) -> (r: bool)
        requires
            self@.shaped(),
            self@.in_grid(x as int, y as int),
        ensures
            r == self@.tile(x as int, y as int).passer is Some,
            self@.wf() && r ==> self@.tile(x as int, y as int).occupier is Some && self@.tile(x as int, y as int).kind
                == Variant::Seat,
    {
        self.tile_ref(x as usize, y as usize).is_allowing()
    }

    /// How many passengers are still waiting to board.
    pub fn queue_len(&self) -> (r: usize)
        ensures
            r == self@.passengers.len(),
    {
        self.passengers.len()
    }

    /// The passenger at position `k` of the boarding queue, the head first.
    pub fn queued(&self, k: usize) -> (r: Option<&Person>)
        ensures
            k < self@.passengers.len() ==> r is Some && r.unwrap()@ == self@.passengers[k as int],
            k >= self@.passengers.len() ==> r is None,
    {
        if k < self.passengers.len() {
            Some(&self.passengers[k])
        } else {
            None
        }
    }
}

/// The cell a directional move leads to.
fn dest_of(b: Behaviour, x: usize, y: usize) -> (r: (usize, usize))
    requires
        is_step(b),
        b == Behaviour::Move_North ==> y > 0,
        b == Behaviour::Move_West ==> x > 0,
        x < 65535,
        y < 65535,
    ensures
        r.0 as int == dest(b, x as int, y as int).0,
        r.1 as int == dest(b, x as int, y as int).1,
{
    match b {
        Behaviour::Move_North => (x, y - 1),
        Behaviour::Move_South => (x, y + 1),
        Behaviour::Move_East => (x + 1, y),
        _ => (x - 1, y),
    }
}

/// The Manhattan distance between two cells of a grid of 16-bit size.
fn distance(ax: i64, ay: i64, bx: i64, by: i64) -> (r: i64)
    requires
        -1 <= ax <= 65536,
        -1 <= ay <= 65536,
        0 <= bx <= 65535,
        0 <= by <= 65535,
    ensures
        r == manhattan(ax as int, ay as int, bx as int, by as int),
{
    let dx = if ax >= bx { ax - bx } else { bx - ax };
    let dy = if ay >= by { ay - by } else { by - ay };
    dx + dy
}

pub open spec fn abs_diff(a: int, b: int) -> int {
    if a >= b { a - b } else { b - a }
}

pub open spec fn manhattan(ax: int, ay: int, bx: int, by: int) -> int {
    abs_diff(ax, bx) + abs_diff(ay, by)
}

} // verus!
