//! The tile registry: a finite map from grid coordinate to tile state.
//!
//! Closed tiles are fog: they block movement and can be activated. Open
//! tiles are walkable ground. Activating a closed tile opens it and fences
//! the newly opened cell with closed tiles on every free neighbouring cell
//! (the Moore neighbourhood), so the open region is always fully bounded by
//! fog — the frontier invariant.

use vstd::prelude::*;

verus! {

/// Largest coordinate magnitude the registry operates on; keeps neighbour
/// offsets and world-position products far away from `i64` overflow.
pub const MAX_COORD: i64 = 0x100_0000_0000;

/// A grid coordinate the registry operates on.
pub open spec fn coord_in_bounds(x: int, y: int) -> bool {
    &&& -MAX_COORD <= x <= MAX_COORD
    &&& -MAX_COORD <= y <= MAX_COORD
}

/// Whether a tile is still fog (closed) or revealed ground (open).
#[derive(Clone, Copy, PartialEq, Eq, Structural, Debug)]
pub enum TileState {
    Closed,
    Open,
}

/// One tile: its identity is its grid coordinate.
#[derive(Clone, Copy, PartialEq, Eq, Structural, Debug)]
pub struct Tile {
    pub x: i64,
    pub y: i64,
    pub state: TileState,
}

/// All tiles that currently exist, each grid coordinate held at most once.
pub struct TileRegistry {
    tiles: Vec<Tile>,
}

/// `d` is one of the eight Moore neighbours of `c`.
pub open spec fn is_neighbor(c: (int, int), d: (int, int)) -> bool {
    &&& c != d
    &&& -1 <= d.0 - c.0 <= 1
    &&& -1 <= d.1 - c.1 <= 1
}

/// Create a closed tile at `c` unless some tile already exists there.
pub open spec fn spec_close(m: Map<(int, int), TileState>, c: (int, int)) -> Map<
    (int, int),
    TileState,
> {
    if m.dom().contains(c) {
        m
    } else {
        m.insert(c, TileState::Closed)
    }
}

/// Fence `c`: create a closed tile on every neighbouring cell that has no
/// tile yet, enumerating the Moore neighbourhood.
pub open spec fn add_frontier(m: Map<(int, int), TileState>, c: (int, int)) -> Map<
    (int, int),
    TileState,
> {
    let m1 = spec_close(m, (c.0 - 1, c.1 - 1));
    let m2 = spec_close(m1, (c.0 - 1, c.1));
    let m3 = spec_close(m2, (c.0 - 1, c.1 + 1));
    let m4 = spec_close(m3, (c.0, c.1 - 1));
    let m5 = spec_close(m4, (c.0, c.1 + 1));
    let m6 = spec_close(m5, (c.0 + 1, c.1 - 1));
    let m7 = spec_close(m6, (c.0 + 1, c.1));
    spec_close(m7, (c.0 + 1, c.1 + 1))
}

/// Activation of the tile at `c`: only a closed tile reacts; it becomes open
/// and its neighbourhood is fenced. Anything else — an open tile, or a stale
/// event naming a cell with no tile — is ignored.
pub open spec fn spec_activate(m: Map<(int, int), TileState>, c: (int, int)) -> Map<
    (int, int),
    TileState,
> {
    if m.dom().contains(c) && m[c] == TileState::Closed {
        add_frontier(m.insert(c, TileState::Open), c)
    } else {
        m
    }
}

/// Activations applied in order, first event first.
pub open spec fn spec_activate_all(
    m: Map<(int, int), TileState>,
    evs: Seq<(int, int)>,
) -> Map<(int, int), TileState>
    decreases evs.len(),
{
    if evs.len() == 0 {
        m
    } else {
        spec_activate_all(spec_activate(m, evs[0]), evs.drop_first())
    }
}

/// The frontier invariant: every open tile has a tile (open or closed) on
/// all eight of its neighbouring cells.
pub open spec fn frontier_closed(m: Map<(int, int), TileState>) -> bool {
    forall|c: (int, int), d: (int, int)|
        m.dom().contains(c) && m[c] == TileState::Open && #[trigger] is_neighbor(c, d)
            ==> m.dom().contains(d)
}

impl View for TileRegistry {
    type V = Map<(int, int), TileState>;

    /// The registry as a map from grid coordinate to tile state.
    closed spec fn view(&self) -> Map<(int, int), TileState> {
        Map::new(
            |c: (int, int)| self.has_tile(c),
            |c: (int, int)| self.tiles@[self.index_of(c)].state,
        )
    }
}

impl TileRegistry {
    /// Some tile with coordinate `c` exists.
    pub closed spec fn has_tile(self, c: (int, int)) -> bool {
        exists|i: int|
            0 <= i < self.tiles@.len() && self.tiles@[i].x == c.0 && self.tiles@[i].y == c.1
    }

    /// The index holding coordinate `c` (unique when the registry is
    /// well formed).
    pub closed spec fn index_of(self, c: (int, int)) -> int {
        choose|i: int|
            0 <= i < self.tiles@.len() && self.tiles@[i].x == c.0 && self.tiles@[i].y == c.1
    }

    /// Well-formedness: no grid coordinate is held twice.
    pub closed spec fn wf(self) -> bool {
        forall|i: int, j: int|
            0 <= i < j < self.tiles@.len()
                ==> !(#[trigger] self.tiles@[i].x == #[trigger] self.tiles@[j].x
                && self.tiles@[i].y == self.tiles@[j].y)
    }

    proof fn lemma_view_index(self, c: (int, int), i: int)
        requires
            self.wf(),
            0 <= i < self.tiles@.len(),
            self.tiles@[i].x == c.0,
            self.tiles@[i].y == c.1,
        ensures
            self@.dom().contains(c),
            self@[c] == self.tiles@[i].state,
    {
        assert(self.has_tile(c));
        let j = self.index_of(c);
        assert(0 <= j < self.tiles@.len() && self.tiles@[j].x == c.0 && self.tiles@[j].y == c.1);
        if i != j {
            assert(false);
        }
    }

    /// A registry with no tiles at all.
    pub fn new() -> (r: TileRegistry)
        ensures
            r.wf(),
            r@ == Map::<(int, int), TileState>::empty(),
    {
        let r = TileRegistry { tiles: Vec::new() };
        proof {
            assert(r@ =~= Map::<(int, int), TileState>::empty());
        }
        r
    }

    fn find(&self, x: i64, y: i64) -> (r: Option<usize>)
        ensures
            match r {
                Some(i) => i < self.tiles@.len() && self.tiles@[i as int].x == x
                    && self.tiles@[i as int].y == y,
                None => !self.has_tile((x as int, y as int)),
            },
    {
        let n = self.tiles.len();
        let mut k: usize = 0;
        while k < n
            invariant
                n == self.tiles@.len(),
                k <= n,
                forall|j: int|
                    0 <= j < k ==> !(#[trigger] self.tiles@[j].x == x && self.tiles@[j].y == y),
            decreases n - k,
        {
            let t = self.tiles[k];
            if t.x == x && t.y == y {
                return Some(k);
            }
            k = k + 1;
        }
        None
    }

    /// The state of the tile at `(x, y)`, or `None` where no tile exists.
    pub fn state_of(&self, x: i64, y: i64) -> (r: Option<TileState>)
        requires
            self.wf(),
        ensures
            r == (if self@.dom().contains((x as int, y as int)) {
                Some(self@[(x as int, y as int)])
            } else {
                None::<TileState>
            }),
    {
        match self.find(x, y) {
            Some(i) => {
                proof {
                    self.lemma_view_index((x as int, y as int), i as int);
                }
                Some(self.tiles[i].state)
            },
            None => None,
        }
    }

    fn insert_new(&mut self, x: i64, y: i64, state: TileState)
        requires
            old(self).wf(),
            !old(self)@.dom().contains((x as int, y as int)),
        ensures
            final(self).wf(),
            final(self)@ == old(self)@.insert((x as int, y as int), state),
    {
        self.tiles.push(Tile { x, y, state });
        proof {
            let c = (x as int, y as int);
            let n = old(self).tiles@.len();
            assert forall|i: int, j: int| 0 <= i < j < self.tiles@.len() implies !(#[trigger] self
                .tiles@[i].x == #[trigger] self.tiles@[j].x && self.tiles@[i].y
                == self.tiles@[j].y) by {
                if j < n {
                    assert(old(self).wf());
                } else {
                    if self.tiles@[i].x == self.tiles@[j].x && self.tiles@[i].y
                        == self.tiles@[j].y {
                        assert(old(self).has_tile(c));
                    }
                }
            }
            assert forall|d: (int, int)| #[trigger]
                self.has_tile(d) implies (old(self).has_tile(d) || d == c) by {
                let i = choose|i: int|
                    0 <= i < self.tiles@.len() && self.tiles@[i].x == d.0 && self.tiles@[i].y
                        == d.1;
                if i < n {
                    assert(old(self).has_tile(d));
                }
            }
            assert forall|d: (int, int)| old(self).has_tile(d) implies #[trigger] self.has_tile(
                d,
            ) by {
                let i = choose|i: int|
                    0 <= i < old(self).tiles@.len() && old(self).tiles@[i].x == d.0 && old(
                        self,
                    ).tiles@[i].y == d.1;
                assert(self.tiles@[i].x == d.0 && self.tiles@[i].y == d.1);
            }
            assert(self.has_tile(c)) by {
                assert(self.tiles@[n as int].x == c.0 && self.tiles@[n as int].y == c.1);
            }
            assert forall|d: (int, int)| #[trigger]
                self.has_tile(d) implies self@[d] == old(self)@.insert(c, state)[d] by {
                if d == c {
                    self.lemma_view_index(c, n as int);
                } else {
                    let i = choose|i: int|
                        0 <= i < old(self).tiles@.len() && old(self).tiles@[i].x == d.0 && old(
                            self,
                        ).tiles@[i].y == d.1;
                    old(self).lemma_view_index(d, i);
                    self.lemma_view_index(d, i);
                }
            }
            assert(self@ =~= old(self)@.insert(c, state));
        }
    }

    /// Create a closed tile at `(x, y)` unless some tile already exists
    /// there.
    pub fn insert_closed(&mut self, x: i64, y: i64)
        requires
            old(self).wf(),
        ensures
            final(self).wf(),
            final(self)@ == spec_close(old(self)@, (x as int, y as int)),
    {
        match self.find(x, y) {
            Some(i) => {
                proof {
                    self.lemma_view_index((x as int, y as int), i as int);
                }
            },
            None => {
                self.insert_new(x, y, TileState::Closed);
            },
        }
    }

    fn open_at(&mut self, i: usize)
        requires
            old(self).wf(),
            i < old(self).tiles@.len(),
        ensures
            final(self).wf(),
            final(self)@ == old(self)@.insert(
                (old(self).tiles@[i as int].x as int, old(self).tiles@[i as int].y as int),
                TileState::Open,
            ),
    {
        let t = self.tiles[i];
        self.tiles[i] = Tile { x: t.x, y: t.y, state: TileState::Open };
        proof {
            let c = (t.x as int, t.y as int);
            assert forall|k: int| 0 <= k < self.tiles@.len() implies #[trigger] self.tiles@[k].x
                == old(self).tiles@[k].x && self.tiles@[k].y == old(self).tiles@[k].y by {}
            assert(self.wf());
            assert forall|d: (int, int)| #[trigger]
                self.has_tile(d) implies old(self).has_tile(d) by {
                let k = choose|k: int|
                    0 <= k < self.tiles@.len() && self.tiles@[k].x == d.0 && self.tiles@[k].y
                        == d.1;
                assert(old(self).tiles@[k].x == d.0 && old(self).tiles@[k].y == d.1);
            }
            assert forall|d: (int, int)| old(self).has_tile(d) implies #[trigger] self.has_tile(
                d,
            ) by {
                let k = choose|k: int|
                    0 <= k < old(self).tiles@.len() && old(self).tiles@[k].x == d.0 && old(
                        self,
                    ).tiles@[k].y == d.1;
                assert(self.tiles@[k].x == d.0 && self.tiles@[k].y == d.1);
            }
            assert forall|d: (int, int)| #[trigger]
                self.has_tile(d) implies self@[d] == old(self)@.insert(c, TileState::Open)[d] by {
                if d == c {
                    self.lemma_view_index(c, i as int);
                } else {
                    let k = choose|k: int|
                        0 <= k < old(self).tiles@.len() && old(self).tiles@[k].x == d.0 && old(
                            self,
                        ).tiles@[k].y == d.1;
                    if k == i {
                        assert(false);
                    }
                    old(self).lemma_view_index(d, k);
                    self.lemma_view_index(d, k);
                }
            }
            assert(self@ =~= old(self)@.insert(c, TileState::Open));
        }
    }

    /// Activate the tile at `(x, y)`: a closed tile becomes open and its
    /// neighbourhood is fenced with closed tiles; an open tile, or a stale
    /// coordinate with no tile, is ignored. Returns whether a tile was
    /// opened.
    pub fn activate(&mut self, x: i64, y: i64) -> (activated: bool)
        requires
            old(self).wf(),
            coord_in_bounds(x as int, y as int),
        ensures
            final(self).wf(),
            activated == (old(self)@.dom().contains((x as int, y as int)) && old(self)@[
                (x as int, y as int)
            ] == TileState::Closed),
            final(self)@ == spec_activate(old(self)@, (x as int, y as int)),
    {
        let found = self.find(x, y);
        if let Some(i) = found {
            proof {
                self.lemma_view_index((x as int, y as int), i as int);
            }
            if self.tiles[i].state == TileState::Closed {
                self.open_at(i);
                self.insert_closed(x - 1, y - 1);
                self.insert_closed(x - 1, y);
                self.insert_closed(x - 1, y + 1);
                self.insert_closed(x, y - 1);
                self.insert_closed(x, y + 1);
                self.insert_closed(x + 1, y - 1);
                self.insert_closed(x + 1, y);
                self.insert_closed(x + 1, y + 1);
                return true;
            }
        }
        false
    }
}

impl TileRegistry {
    /// Every tile that currently exists, one entry per coordinate.
    pub fn all_tiles(&self) -> (r: Vec<Tile>)
        requires
            self.wf(),
        ensures
            forall|k: int|
                0 <= k < r@.len() ==> self@.dom().contains(
                    (#[trigger] r@[k].x as int, r@[k].y as int),
                ) && self@[(r@[k].x as int, r@[k].y as int)] == r@[k].state,
            forall|c: (int, int)|
                self@.dom().contains(c) ==> exists|k: int|
                    0 <= k < r@.len() && (#[trigger] r@[k].x as int, r@[k].y as int) == c,
    {
        let n = self.tiles.len();
        let mut r: Vec<Tile> = Vec::new();
        let mut k: usize = 0;
        while k < n
            invariant
                self.wf(),
                n == self.tiles@.len(),
                k <= n,
                r@ == self.tiles@.take(k as int),
            decreases n - k,
        {
            r.push(self.tiles[k]);
            proof {
                assert(r@ =~= self.tiles@.take(k as int + 1));
            }
            k = k + 1;
        }
        proof {
            assert(r@ == self.tiles@);
            assert forall|k2: int| 0 <= k2 < r@.len() implies self@.dom().contains(
                (#[trigger] r@[k2].x as int, r@[k2].y as int),
            ) && self@[(r@[k2].x as int, r@[k2].y as int)] == r@[k2].state by {
                self.lemma_view_index((r@[k2].x as int, r@[k2].y as int), k2);
            }
            assert forall|c: (int, int)| self@.dom().contains(c) implies exists|k2: int|
                0 <= k2 < r@.len() && (#[trigger] r@[k2].x as int, r@[k2].y as int) == c by {
                let i = choose|i: int|
                    0 <= i < self.tiles@.len() && self.tiles@[i].x == c.0 && self.tiles@[i].y
                        == c.1;
                assert((r@[i].x as int, r@[i].y as int) == c);
            }
        }
        r
    }
}

/// The state the initial area gives to coordinate `c`: the border of the
/// five-by-five block is closed, the inner three-by-three block is open.
pub open spec fn initial_state(c: (int, int)) -> TileState {
    if c.0 == -2 || c.0 == 2 || c.1 == -2 || c.1 == 2 {
        TileState::Closed
    } else {
        TileState::Open
    }
}

/// The registry the world starts from: the five-by-five block of
/// coordinates around the origin.
pub open spec fn initial_map() -> Map<(int, int), TileState> {
    Map::new(
        |c: (int, int)| -2 <= c.0 <= 2 && -2 <= c.1 <= 2,
        |c: (int, int)| initial_state(c),
    )
}

/// The part of the initial area built so far: every column before `x`
/// whole, and column `x` up to (not including) row `y`.
spec fn partial_initial(x: int, y: int) -> Map<(int, int), TileState> {
    Map::new(
        |c: (int, int)| ((-2 <= c.0 < x && -2 <= c.1 <= 2) || (c.0 == x && -2 <= c.1 < y)),
        |c: (int, int)| initial_state(c),
    )
}

impl TileRegistry {
    /// Build the initial area: a five-by-five block of tiles around the
    /// origin, closed on its border and open inside.
    pub fn initial_area() -> (r: TileRegistry)
        ensures
            r.wf(),
            r@ == initial_map(),
    {
        let mut r = TileRegistry::new();
        proof {
            assert(r@ =~= partial_initial(-2, -2));
        }
        let mut x: i64 = -2;
        while x <= 2
            invariant
                -2 <= x <= 3,
                r.wf(),
                r@ == partial_initial(x as int, -2),
            decreases 3 - x,
        {
            let mut y: i64 = -2;
            while y <= 2
                invariant
                    -2 <= x <= 2,
                    -2 <= y <= 3,
                    r.wf(),
                    r@ == partial_initial(x as int, y as int),
                decreases 3 - y,
            {
                let state = if x == -2 || x == 2 || y == -2 || y == 2 {
                    TileState::Closed
                } else {
                    TileState::Open
                };
                r.insert_new(x, y, state);
                proof {
                    assert(r@ =~= partial_initial(x as int, y as int + 1));
                }
                y = y + 1;
            }
            proof {
                assert(r@ =~= partial_initial(x as int + 1, -2));
            }
            x = x + 1;
        }
        proof {
            assert(r@ =~= initial_map());
        }
        r
    }
}

/// What fencing a neighbourhood does, cell by cell: the domain grows by
/// exactly the eight neighbours of `c`, present tiles keep their state, and
/// the newly created tiles are closed.
pub proof fn lemma_add_frontier(m: Map<(int, int), TileState>, c: (int, int))
    ensures
        forall|d: (int, int)| #[trigger]
            add_frontier(m, c).dom().contains(d) <==> (m.dom().contains(d) || is_neighbor(c, d)),
        forall|d: (int, int)|
            m.dom().contains(d) ==> #[trigger] add_frontier(m, c)[d] == m[d],
        forall|d: (int, int)|
            !m.dom().contains(d) && is_neighbor(c, d) ==> #[trigger] add_frontier(m, c)[d]
                == TileState::Closed,
{
    assert forall|d: (int, int)| #[trigger]
        add_frontier(m, c).dom().contains(d) <==> (m.dom().contains(d) || is_neighbor(
        c,
        d,
    )) by {
        if is_neighbor(c, d) {
            assert(d.0 == c.0 - 1 || d.0 == c.0 || d.0 == c.0 + 1);
            assert(d.1 == c.1 - 1 || d.1 == c.1 || d.1 == c.1 + 1);
        }
    }
}

/// Activating a tile that is already open changes nothing: only closed
/// tiles react to activation.
pub proof fn lemma_activate_open_noop(m: Map<(int, int), TileState>, c: (int, int))
    requires
        m.dom().contains(c) ==> m[c] == TileState::Open,
    ensures
        spec_activate(m, c) == m,
{
}

/// Activating the same coordinate twice has the effect of activating it
/// once: the first activation opens the tile, so the second finds it open
/// and is ignored. Activation acts on tile identity, not on a counter.
pub proof fn lemma_activate_idempotent(m: Map<(int, int), TileState>, c: (int, int))
    ensures
        spec_activate(spec_activate(m, c), c) == spec_activate(m, c),
{
    if m.dom().contains(c) && m[c] == TileState::Closed {
        let m1 = m.insert(c, TileState::Open);
        lemma_add_frontier(m1, c);
        assert(spec_activate(m, c)[c] == TileState::Open);
    }
}

/// One activation preserves the frontier invariant: afterwards every open
/// tile, the newly opened one included, still has tiles on all eight of its
/// neighbouring cells.
pub proof fn lemma_activate_preserves_frontier(m: Map<(int, int), TileState>, c: (int, int))
    requires
        frontier_closed(m),
    ensures
        frontier_closed(spec_activate(m, c)),
{
    if m.dom().contains(c) && m[c] == TileState::Closed {
        let m1 = m.insert(c, TileState::Open);
        let m2 = add_frontier(m1, c);
        lemma_add_frontier(m1, c);
        assert forall|a: (int, int), d: (int, int)|
            m2.dom().contains(a) && m2[a] == TileState::Open && #[trigger] is_neighbor(
            a,
            d,
        ) implies m2.dom().contains(d) by {
            if a == c {
                assert(m2.dom().contains(d));
            } else if m1.dom().contains(a) {
                assert(m2[a] == m1[a]);
                assert(m[a] == TileState::Open);
                assert(m.dom().contains(d));
            } else {
                assert(m2[a] == TileState::Closed);
            }
        }
    }
}

/// A whole sequence of activations preserves the frontier invariant.
pub proof fn lemma_activate_all_preserves_frontier(
    m: Map<(int, int), TileState>,
    evs: Seq<(int, int)>,
)
    requires
        frontier_closed(m),
    ensures
        frontier_closed(spec_activate_all(m, evs)),
    decreases evs.len(),
{
    if evs.len() > 0 {
        lemma_activate_preserves_frontier(m, evs[0]);
        lemma_activate_all_preserves_frontier(spec_activate(m, evs[0]), evs.drop_first());
    }
}

/// The initial area satisfies the frontier invariant: its open tiles are
/// the inner three-by-three block, whose neighbours all lie within the
/// five-by-five block.
pub proof fn lemma_initial_frontier()
    ensures
        frontier_closed(initial_map()),
{
    assert forall|c: (int, int), d: (int, int)|
        initial_map().dom().contains(c) && initial_map()[c] == TileState::Open
            && #[trigger] is_neighbor(c, d) implies initial_map().dom().contains(d) by {
        assert(-1 <= c.0 <= 1 && -1 <= c.1 <= 1);
    }
}

/// Every registry reachable from the initial area by repeated activation
/// satisfies the frontier invariant: after any sequence of activations, all
/// eight neighbours of every open tile exist as open or closed tiles.
pub proof fn lemma_reachable_frontier(evs: Seq<(int, int)>)
    ensures
        frontier_closed(spec_activate_all(initial_map(), evs)),
{
    lemma_initial_frontier();
    lemma_activate_all_preserves_frontier(initial_map(), evs);
}

} // verus!
