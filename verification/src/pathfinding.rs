//! Uniform-cost search over the terrain grid: movement ranges, per-cell
//! minimal costs and reconstructible least-cost paths.
//!
//! `DijkstraMap::new` runs the search once; the result is immutable and owned
//! by whichever game state requested it. Well-formedness (`wf`) captures
//! enough of the search's outcome — cost bounds, predecessor chains and the
//! absence of any relaxable edge — to prove that recorded costs are the true
//! minima over 4-connected paths (`lemma_cost_minimal`,
//! `lemma_cost_achievable`) and that path reconstruction is exact
//! (`path_to`).

use vstd::prelude::*;

use crate::map::{lemma_grid_idx_bounds, lemma_grid_idx_injective, GameMap};
use crate::math::{lemma_push_no_duplicates, row_major_lt, Point};
use crate::unit::{movement_cost_spec, MovementClass, Unit};
use crate::world::Faction;

verus! {

/// Sentinel cost marking a cell that cannot be entered or was not reached.
pub const UNREACHABLE: u32 = u32::MAX;

/// The immutable inputs of one search: grid shape and terrain, the moving
/// unit's class, budget and origin, and the set of cells an opposing unit
/// occupies (occupancy is evaluated once at build time).
pub ghost struct SearchCtx {
    pub width: int,
    pub height: int,
    pub terrain: Seq<crate::map::Terrain>,
    pub mover: MovementClass,
    pub budget: u32,
    pub blocked: Set<Point>,
    pub start: Point,
}

pub open spec fn ctx_wf(ctx: SearchCtx) -> bool {
    &&& 1 <= ctx.width <= i32::MAX
    &&& 1 <= ctx.height <= i32::MAX
    &&& ctx.width * ctx.height <= usize::MAX
    &&& ctx.terrain.len() == ctx.width * ctx.height
    &&& ctx_in_bounds(ctx, ctx.start)
    &&& ctx.budget < UNREACHABLE
}

pub open spec fn ctx_in_bounds(ctx: SearchCtx, p: Point) -> bool {
    0 <= p.x < ctx.width && 0 <= p.y < ctx.height
}

pub open spec fn ctx_idx(ctx: SearchCtx, p: Point) -> int {
    p.y * ctx.width + p.x
}

/// Cost of stepping into cell `p`.
pub open spec fn step_cost(ctx: SearchCtx, p: Point) -> u32 {
    movement_cost_spec(ctx.mover, ctx.terrain[ctx_idx(ctx, p)])
}

/// A cell a search may step into: in bounds, not occupied by an opposing
/// unit, and passable for the mover's class.
pub open spec fn enterable(ctx: SearchCtx, p: Point) -> bool {
    &&& ctx_in_bounds(ctx, p)
    &&& !ctx.blocked.contains(p)
    &&& step_cost(ctx, p) != UNREACHABLE
}

/// The cell `p` of the grid vector `s`.
pub open spec fn grid_at<T>(ctx: SearchCtx, s: Seq<T>, p: Point) -> T {
    s[ctx_idx(ctx, p)]
}

/// An admissible walk: starts at the origin, moves between 4-adjacent cells,
/// and enters only enterable cells.
pub open spec fn is_path(ctx: SearchCtx, path: Seq<Point>) -> bool {
    &&& path.len() >= 1
    &&& path[0] == ctx.start
    &&& forall|i: int| 0 <= i < path.len() - 1 ==> (#[trigger] path[i]).is_adjacent(path[i + 1])
    &&& forall|i: int| 1 <= i < path.len() ==> enterable(ctx, #[trigger] path[i])
}

/// Cumulative terrain cost of a walk: the sum of the costs of every cell
/// entered (the origin itself costs nothing).
pub open spec fn path_cost(ctx: SearchCtx, path: Seq<Point>) -> int
    decreases path.len(),
{
    if path.len() <= 1 {
        0
    } else {
        path_cost(ctx, path.drop_last()) + step_cost(ctx, path.last())
    }
}

/// Sum of the terrain costs of the cells a route enters when walked in the
/// origin-to-goal direction: every cell of a goal-first route except the
/// origin at its end.
pub open spec fn route_cost(ctx: SearchCtx, route: Seq<Point>) -> int
    decreases route.len(),
{
    if route.len() <= 1 {
        0
    } else {
        step_cost(ctx, route[0]) + route_cost(ctx, route.drop_first())
    }
}

/// The set of cells on which a unit of faction `f` would be blocked: cells
/// occupied by an opposing-faction unit (same-faction units do not block).
pub open spec fn blocked_set(units: Seq<Unit>, f: Faction) -> Set<Point> {
    Set::new(
        |p: Point|
            exists|i: int|
                0 <= i < units.len() && (#[trigger] units[i]).faction != f && units[i].pos == p,
    )
}

/// The search context a `DijkstraMap` query derives from its arguments.
pub open spec fn search_ctx_of(map: GameMap, target: Unit, units: Seq<Unit>) -> SearchCtx {
    SearchCtx {
        width: map.width as int,
        height: map.height as int,
        terrain: map.terrain@,
        mover: target.movement_class,
        budget: target.movement,
        blocked: blocked_set(units, target.faction),
        start: target.pos,
    }
}

/// A passable step always costs at least one movement point.
pub proof fn lemma_step_cost_pos(class: MovementClass, terrain: crate::map::Terrain)
    ensures
        movement_cost_spec(class, terrain) == UNREACHABLE || movement_cost_spec(class, terrain)
            >= 1,
{
}

/// Cumulative path cost never goes negative.
pub proof fn lemma_path_cost_nonneg(ctx: SearchCtx, path: Seq<Point>)
    ensures
        path_cost(ctx, path) >= 0,
    decreases path.len(),
{
    if path.len() > 1 {
        lemma_path_cost_nonneg(ctx, path.drop_last());
    }
}

// ---------------------------------------------------------------------------
// Invariants of the search result
// ---------------------------------------------------------------------------
/// Every recorded cost is within the movement budget.
pub open spec fn inv_costs_bounded(ctx: SearchCtx, cost: Seq<u32>) -> bool {
    forall|p: Point|
        ctx_in_bounds(ctx, p) ==> (#[trigger] grid_at(ctx, cost, p) == UNREACHABLE || grid_at(
            ctx,
            cost,
            p,
        ) <= ctx.budget)
}

/// The predecessor link of a reached cell: an adjacent reached cell whose
/// cost plus the step into this cell does not exceed this cell's cost.
pub open spec fn chain_ok(ctx: SearchCtx, cost: Seq<u32>, pred: Seq<Option<Point>>, p: Point) -> bool {
    &&& enterable(ctx, p)
    &&& grid_at(ctx, pred, p) matches Some(q) && {
        &&& ctx_in_bounds(ctx, q)
        &&& q.is_adjacent(p)
        &&& grid_at(ctx, cost, q) != UNREACHABLE
        &&& grid_at(ctx, cost, q) < grid_at(ctx, cost, p)
        &&& grid_at(ctx, cost, q) + step_cost(ctx, p) <= grid_at(ctx, cost, p)
    }
}

/// Every reached cell other than the origin has a valid predecessor link.
pub open spec fn inv_chain(ctx: SearchCtx, cost: Seq<u32>, pred: Seq<Option<Point>>) -> bool {
    forall|p: Point|
        ctx_in_bounds(ctx, p) && p != ctx.start && #[trigger] grid_at(ctx, cost, p) != UNREACHABLE
            ==> chain_ok(ctx, cost, pred, p)
}

/// An edge the search would still relax: stepping from reached cell `p` into
/// enterable neighbour `q` stays within budget and improves `q`'s cost.
pub open spec fn relaxable(ctx: SearchCtx, cost: Seq<u32>, p: Point, q: Point) -> bool {
    &&& ctx_in_bounds(ctx, p)
    &&& grid_at(ctx, cost, p) != UNREACHABLE
    &&& p.is_adjacent(q)
    &&& enterable(ctx, q)
    &&& grid_at(ctx, cost, p) + step_cost(ctx, q) <= ctx.budget
    &&& (grid_at(ctx, cost, q) == UNREACHABLE || grid_at(ctx, cost, p) + step_cost(ctx, q)
        < grid_at(ctx, cost, q))
}

/// A settled search: no edge is relaxable anywhere.
pub open spec fn inv_stable(ctx: SearchCtx, cost: Seq<u32>) -> bool {
    forall|p: Point, q: Point| !relaxable(ctx, cost, p, q)
}

/// The reachable list holds exactly the reached cells, without duplicates,
/// in row-major order — so the list, like the costs, is identical across
/// two searches with equal inputs.
pub open spec fn inv_reachables(ctx: SearchCtx, cost: Seq<u32>, rs: Seq<Point>) -> bool {
    &&& forall|p: Point|
        #[trigger] rs.contains(p) <==> (ctx_in_bounds(ctx, p) && grid_at(ctx, cost, p)
            != UNREACHABLE)
    &&& rs.no_duplicates()
    &&& forall|i: int, j: int| 0 <= i < j < rs.len() ==> row_major_lt(#[trigger] rs[i], #[trigger] rs[j])
}

// ---------------------------------------------------------------------------
// The frontier worklist
// ---------------------------------------------------------------------------
/// A pending frontier entry: a cell together with the cost it was enqueued
/// at. Entries go stale when the cell's cost improves afterwards.
#[derive(Clone, Copy)]
struct Node {
    pos: Point,
    dist: u32,
}

/// A frontier entry is consistent with the cost grid: its cell was reached,
/// its recorded distance is no better than the cell's cost, and it is within
/// budget.
spec fn node_ok(ctx: SearchCtx, cost: Seq<u32>, nd: Node) -> bool {
    &&& ctx_in_bounds(ctx, nd.pos)
    &&& grid_at(ctx, cost, nd.pos) != UNREACHABLE
    &&& nd.dist >= grid_at(ctx, cost, nd.pos)
    &&& nd.dist <= ctx.budget
}

spec fn frontier_ok(ctx: SearchCtx, cost: Seq<u32>, fr: Seq<Node>) -> bool {
    forall|k: int| 0 <= k < fr.len() ==> node_ok(ctx, cost, #[trigger] fr[k])
}

/// The frontier holds an entry for cell `p` at distance `d`.
spec fn has_witness(fr: Seq<Node>, p: Point, d: u32) -> bool {
    exists|k: int| 0 <= k < fr.len() && (#[trigger] fr[k]).pos == p && fr[k].dist == d
}

/// Every relaxable edge's source still has a fresh frontier entry, so the
/// search cannot settle while an improvement is possible.
spec fn inv_workset(ctx: SearchCtx, cost: Seq<u32>, fr: Seq<Node>) -> bool {
    forall|p: Point, q: Point|
        #[trigger] relaxable(ctx, cost, p, q) ==> has_witness(fr, p, grid_at(ctx, cost, p))
}

proof fn lemma_witness_remove(fr: Seq<Node>, k: int, p: Point, d: u32)
    requires
        0 <= k < fr.len(),
        has_witness(fr, p, d),
        !(fr[k].pos == p && fr[k].dist == d),
    ensures
        has_witness(fr.remove(k), p, d),
{
    let j = choose|j: int| 0 <= j < fr.len() && (#[trigger] fr[j]).pos == p && fr[j].dist == d;
    if j < k {
        assert(fr.remove(k)[j] == fr[j]);
    } else {
        assert(fr.remove(k)[j - 1] == fr[j]);
    }
}

proof fn lemma_witness_push(fr: Seq<Node>, nd: Node, p: Point, d: u32)
    requires
        has_witness(fr, p, d),
    ensures
        has_witness(fr.push(nd), p, d),
{
    let j = choose|j: int| 0 <= j < fr.len() && (#[trigger] fr[j]).pos == p && fr[j].dist == d;
    assert(fr.push(nd)[j] == fr[j]);
}

/// Sum of all recorded costs: the termination potential of the search loop.
/// Every relaxation strictly lowers it.
spec fn seq_sum(s: Seq<u32>) -> int
    decreases s.len(),
{
    if s.len() == 0 {
        0
    } else {
        seq_sum(s.drop_last()) + s.last()
    }
}

proof fn lemma_seq_sum_nonneg(s: Seq<u32>)
    ensures
        seq_sum(s) >= 0,
    decreases s.len(),
{
    if s.len() > 0 {
        lemma_seq_sum_nonneg(s.drop_last());
    }
}

proof fn lemma_seq_sum_update(s: Seq<u32>, i: int, v: u32)
    requires
        0 <= i < s.len(),
    ensures
        seq_sum(s.update(i, v)) == seq_sum(s) - s[i] + v,
    decreases s.len(),
{
    if i == s.len() - 1 {
        assert(s.update(i, v).drop_last() =~= s.drop_last());
        assert(s.update(i, v).last() == v);
    } else {
        lemma_seq_sum_update(s.drop_last(), i, v);
        assert(s.update(i, v).drop_last() =~= s.drop_last().update(i, v));
        assert(s.update(i, v).last() == s.last());
    }
}

/// Updating one cell of a grid vector leaves every other cell unchanged.
proof fn lemma_grid_update<T>(ctx: SearchCtx, s: Seq<T>, q: Point, v: T)
    requires
        1 <= ctx.width,
        1 <= ctx.height,
        s.len() == ctx.width * ctx.height,
        ctx_in_bounds(ctx, q),
    ensures
        s.update(ctx_idx(ctx, q), v).len() == s.len(),
        grid_at(ctx, s.update(ctx_idx(ctx, q), v), q) == v,
        forall|p: Point|
            ctx_in_bounds(ctx, p) && p != q ==> grid_at(ctx, s.update(ctx_idx(ctx, q), v), p)
                == grid_at(ctx, s, p),
{
    lemma_grid_idx_bounds(ctx.width, ctx.height, q.x as int, q.y as int);
    let s2 = s.update(ctx_idx(ctx, q), v);
    assert forall|p: Point| ctx_in_bounds(ctx, p) && p != q implies grid_at(ctx, s2, p) == grid_at(
        ctx,
        s,
        p,
    ) by {
        lemma_grid_idx_bounds(ctx.width, ctx.height, p.x as int, p.y as int);
        if ctx_idx(ctx, p) == ctx_idx(ctx, q) {
            lemma_grid_idx_injective(
                ctx.width,
                p.x as int,
                p.y as int,
                q.x as int,
                q.y as int,
            );
        }
    }
}

/// The cell one step in direction (dx, dy) from `p`.
pub open spec fn step_target(p: Point, dx: int, dy: int) -> Point {
    Point { x: (p.x + dx) as i32, y: (p.y + dy) as i32 }
}

// ---------------------------------------------------------------------------
// The search result
// ---------------------------------------------------------------------------
/// Result of one movement-range query: the reachable cells, the per-cell
/// minimal cumulative cost, and predecessor links for path reconstruction.
/// Immutable once built.
pub struct DijkstraMap {
    reachables: Vec<Point>,
    cost: Vec<u32>,
    came_from: Vec<Option<Point>>,
    start: Point,
    width: usize,
    height: usize,
    budget: u32,
    search: Ghost<SearchCtx>,
}

impl DijkstraMap {
    /// The search context this map was built for.
    pub closed spec fn ctx(self) -> SearchCtx {
        self.search@
    }

    /// Recorded cumulative cost of `p` (`UNREACHABLE` if not reached).
    pub closed spec fn cost_of(self, p: Point) -> u32 {
        grid_at(self.ctx(), self.cost@, p)
    }

    /// Recorded predecessor of `p` on a least-cost route from the origin.
    pub closed spec fn pred_of(self, p: Point) -> Option<Point> {
        grid_at(self.ctx(), self.came_from@, p)
    }

    /// `p` can be entered this turn within the movement budget.
    pub open spec fn reachable(self, p: Point) -> bool {
        ctx_in_bounds(self.ctx(), p) && self.cost_of(p) != UNREACHABLE
    }

    /// The view of the reachable-cell list.
    pub closed spec fn reachables_seq(self) -> Seq<Point> {
        self.reachables@
    }

    /// A well-formed search result: the recorded data is a settled search
    /// outcome for `ctx()`.
    pub closed spec fn wf(self) -> bool {
        let ctx = self.search@;
        &&& ctx_wf(ctx)
        &&& self.width == ctx.width
        &&& self.height == ctx.height
        &&& self.start == ctx.start
        &&& self.budget == ctx.budget
        &&& self.cost@.len() == ctx.width * ctx.height
        &&& self.came_from@.len() == ctx.width * ctx.height
        &&& grid_at(ctx, self.cost@, ctx.start) == 0
        &&& grid_at(ctx, self.came_from@, ctx.start) is None
        &&& inv_costs_bounded(ctx, self.cost@)
        &&& inv_chain(ctx, self.cost@, self.came_from@)
        &&& inv_stable(ctx, self.cost@)
        &&& inv_reachables(ctx, self.cost@, self.reachables@)
    }

    /// A well-formed search result was built for a well-formed context.
    pub proof fn lemma_ctx_wf(self)
        requires
            self.wf(),
        ensures
            ctx_wf(self.ctx()),
    {
    }

    /// The origin always belongs to the reachable set, at cost zero.
    pub proof fn lemma_start_reachable(self)
        requires
            self.wf(),
        ensures
            self.reachable(self.ctx().start),
            self.cost_of(self.ctx().start) == 0,
            self.pred_of(self.ctx().start) is None,
    {
    }

    /// The cells a unit can enter this turn within its movement budget,
    /// without duplicates.
    pub fn get_reachables(&self) -> (r: &Vec<Point>)
        requires
            self.wf(),
        ensures
            forall|p: Point| #[trigger] r@.contains(p) <==> self.reachable(p),
            r@.no_duplicates(),
            forall|i: int, j: int|
                0 <= i < j < r@.len() ==> row_major_lt(#[trigger] r@[i], #[trigger] r@[j]),
            r@ == self.reachables_seq(),
    {
        &self.reachables
    }

    /// Whether `p` can be entered this turn within the movement budget.
    pub fn is_reachable(&self, p: Point) -> (r: bool)
        requires
            self.wf(),
        ensures
            r == self.reachable(p),
    {
        if p.x < 0 || p.y < 0 || (p.x as usize) >= self.width || (p.y as usize) >= self.height {
            return false;
        }
        let i = self.idx(p);
        self.cost[i] != UNREACHABLE
    }

    /// Recorded cumulative cost of entering `p` (`UNREACHABLE` when `p` is
    /// out of bounds or was not reached).
    pub fn get_cost(&self, p: Point) -> (r: u32)
        requires
            self.wf(),
        ensures
            self.reachable(p) ==> r == self.cost_of(p),
            !self.reachable(p) ==> r == UNREACHABLE,
    {
        if p.x < 0 || p.y < 0 || (p.x as usize) >= self.width || (p.y as usize) >= self.height {
            return UNREACHABLE;
        }
        let i = self.idx(p);
        self.cost[i]
    }

    /// The origin of the search.
    pub fn get_start(&self) -> (r: Point)
        requires
            self.wf(),
        ensures
            r == self.ctx().start,
    {
        self.start
    }

    /// Row-major index of an in-bounds cell.
    fn idx(&self, pos: Point) -> (r: usize)
        requires
            self.wf(),
            ctx_in_bounds(self.ctx(), pos),
        ensures
            r == ctx_idx(self.ctx(), pos),
            r < self.cost@.len(),
            r < self.came_from@.len(),
    {
        proof {
            lemma_grid_idx_bounds(
                self.ctx().width,
                self.ctx().height,
                pos.x as int,
                pos.y as int,
            );
        }
        (pos.y as usize) * self.width + (pos.x as usize)
    }

    /// The route `get_path_to` reconstructs: the walk of predecessor links
    /// from the goal back to the origin. A pure function of the map and the
    /// goal, so reconstruction is deterministic.
    pub open spec fn path_to(self, goal: Point) -> Seq<Point>
        decreases self.cost_of(goal),
        when self.wf() && self.reachable(goal)
    {
        if goal == self.ctx().start {
            seq![goal]
        } else {
            match self.pred_of(goal) {
                Some(q) => seq![goal] + self.path_to(q),
                None => seq![goal],
            }
        }
    }

    /// Reconstruct the route from `goal` back to the origin, ordered from
    /// the goal first to the origin last, so a caller pops from the end to
    /// animate forward. Requesting an unreachable goal is a caller error;
    /// the total behaviour is to return the empty route for it (callers
    /// surface a warning).
    pub fn get_path_to(&self, goal: Point) -> (r: Vec<Point>)
        requires
            self.wf(),
        ensures
            self.reachable(goal) ==> r@ == self.path_to(goal),
            !self.reachable(goal) ==> r@ == Seq::<Point>::empty(),
    {
        let mut path: Vec<Point> = Vec::new();
        if goal.x < 0 || goal.y < 0 || (goal.x as usize) >= self.width || (goal.y as usize)
            >= self.height {
            return path;
        }
        let gi = self.idx(goal);
        if self.cost[gi] == UNREACHABLE {
            return path;
        }
        let mut current = goal;
        while !(current == self.start)
            invariant
                self.wf(),
                self.reachable(goal),
                self.reachable(current),
                self.path_to(goal) == path@ + self.path_to(current),
            decreases self.cost_of(current),
        {
            path.push(current);
            let ci = self.idx(current);
            match self.came_from[ci] {
                Some(prev) => {
                    proof {
                        assert(chain_ok(self.ctx(), self.cost@, self.came_from@, current));
                        assert(self.pred_of(current) == Some(prev));
                        assert(self.path_to(current) == seq![current] + self.path_to(prev));
                        assert(path@ == path@.drop_last().push(current));
                        assert((path@.drop_last().push(current)) + self.path_to(prev)
                            =~= path@.drop_last() + (seq![current] + self.path_to(prev)));
                    }
                    current = prev;
                },
                None => {
                    proof {
                        assert(chain_ok(self.ctx(), self.cost@, self.came_from@, current));
                        assert(false);
                    }
                    return path;
                },
            }
        }
        path.push(current);
        proof {
            assert(self.path_to(current) =~= seq![current]);
            assert(path@ =~= path@.drop_last() + seq![current]);
        }
        path
    }
}

/// Reconstruction is exact: the route from a reachable goal starts at the
/// goal, ends at the origin, moves between 4-adjacent cells, and stays
/// within the reachable set. Together with `get_path_to`'s postcondition
/// (its result equals `path_to`, a function of the map and goal alone), two
/// calls with the same goal yield identical routes.
/// The predecessor link of a reached cell other than the origin: an
/// adjacent, strictly cheaper reached cell, and stepping from it into this
/// cell costs exactly the difference of their recorded minima.
pub proof fn lemma_pred_link(m: DijkstraMap, p: Point)
    requires
        m.wf(),
        m.reachable(p),
        p != m.ctx().start,
    ensures
        m.pred_of(p) matches Some(q) && {
            &&& m.reachable(q)
            &&& q.is_adjacent(p)
            &&& enterable(m.ctx(), p)
            &&& m.cost_of(q) < m.cost_of(p)
            &&& m.cost_of(q) + step_cost(m.ctx(), p) == m.cost_of(p)
        },
{
    let ctx = m.ctx();
    assert(chain_ok(ctx, m.cost@, m.came_from@, p));
    let q = m.pred_of(p)->Some_0;
    // the chain invariant bounds the cost from one side; settledness (no
    // relaxable edge) forbids a strict improvement, forcing equality
    assert(grid_at(ctx, m.cost@, p) == UNREACHABLE || grid_at(ctx, m.cost@, p) <= ctx.budget);
    assert(!relaxable(ctx, m.cost@, q, p));
}

pub proof fn lemma_path_to_properties(m: DijkstraMap, goal: Point)
    requires
        m.wf(),
        m.reachable(goal),
    ensures
        m.path_to(goal).len() >= 1,
        m.path_to(goal)[0] == goal,
        m.path_to(goal).last() == m.ctx().start,
        forall|i: int|
            0 <= i < m.path_to(goal).len() - 1 ==> (#[trigger] m.path_to(goal)[i]).is_adjacent(
                m.path_to(goal)[i + 1],
            ),
        forall|i: int| 0 <= i < m.path_to(goal).len() ==> m.reachable(#[trigger] m.path_to(goal)[i]),
        forall|i: int, j: int|
            0 <= i < j < m.path_to(goal).len() ==> m.cost_of(#[trigger] m.path_to(goal)[j])
                < m.cost_of(#[trigger] m.path_to(goal)[i]),
        m.path_to(goal).no_duplicates(),
        m.cost_of(m.path_to(goal).last()) == 0,
        route_cost(m.ctx(), m.path_to(goal)) == m.cost_of(goal),
    decreases m.cost_of(goal),
{
    if goal == m.ctx().start {
    } else {
        lemma_pred_link(m, goal);
        let q = m.pred_of(goal)->Some_0;
        lemma_path_to_properties(m, q);
        let rest = m.path_to(q);
        let whole = m.path_to(goal);
        assert(whole == seq![goal] + rest);
        assert(whole[0] == goal);
        assert(whole.last() == rest.last());
        assert forall|i: int| 0 <= i < whole.len() - 1 implies (#[trigger] whole[i]).is_adjacent(
            whole[i + 1],
        ) by {
            if i == 0 {
                assert(whole[1] == rest[0]);
                assert(rest[0] == q);
                assert(q.is_adjacent(goal));
            } else {
                assert(whole[i] == rest[i - 1]);
                assert(whole[i + 1] == rest[i]);
            }
        }
        assert forall|i: int, j: int| 0 <= i < j < whole.len() implies m.cost_of(
            #[trigger] whole[j],
        ) < m.cost_of(#[trigger] whole[i]) by {
            assert(whole[j] == rest[j - 1]);
            if i == 0 {
                if j == 1 {
                    assert(rest[0] == q);
                } else {
                    assert(m.cost_of(rest[j - 1]) < m.cost_of(rest[0]));
                    assert(rest[0] == q);
                }
            } else {
                assert(whole[i] == rest[i - 1]);
            }
        }
        assert(whole.no_duplicates()) by {
            assert forall|i: int, j: int|
                0 <= i < j < whole.len() implies whole[i] != whole[j] by {
                assert(m.cost_of(whole[j]) < m.cost_of(whole[i]));
            }
        }
        assert(whole.drop_first() =~= rest);
        assert(route_cost(m.ctx(), whole) == step_cost(m.ctx(), goal) + route_cost(
            m.ctx(),
            rest,
        ));
    }
}

/// The engine's central property: every cell of the reachable set has a
/// recorded cost within the movement budget, and that cost is the true
/// minimum cumulative terrain cost over 4-connected admissible walks — some
/// walk within budget attains it, and no walk within budget does better.
pub proof fn lemma_reachable_cost_is_true_minimum(m: DijkstraMap, p: Point)
    requires
        m.wf(),
        m.reachable(p),
    ensures
        m.cost_of(p) <= m.ctx().budget,
        exists|path: Seq<Point>|
            is_path(m.ctx(), path) && (#[trigger] path_cost(m.ctx(), path)) == m.cost_of(p)
                && path.last() == p,
        forall|path: Seq<Point>|
            is_path(m.ctx(), path) && path.last() == p && (#[trigger] path_cost(m.ctx(), path))
                <= m.ctx().budget ==> m.cost_of(p) <= path_cost(m.ctx(), path),
{
    lemma_cost_achievable(m, p);
    assert forall|path: Seq<Point>|
        is_path(m.ctx(), path) && path.last() == p && (#[trigger] path_cost(m.ctx(), path))
            <= m.ctx().budget implies m.cost_of(p) <= path_cost(m.ctx(), path) by {
        lemma_cost_minimal(m, path);
    }
}

/// Minimality: no admissible walk within the movement budget reaches a cell
/// more cheaply than the recorded cost, and any cell an admissible walk
/// within budget reaches is in the reachable set.
pub proof fn lemma_cost_minimal(m: DijkstraMap, path: Seq<Point>)
    requires
        m.wf(),
        is_path(m.ctx(), path),
        path_cost(m.ctx(), path) <= m.ctx().budget,
    ensures
        m.reachable(path.last()),
        m.cost_of(path.last()) <= path_cost(m.ctx(), path),
    decreases path.len(),
{
    let ctx = m.ctx();
    if path.len() == 1 {
        assert(path.last() == ctx.start);
    } else {
        let prefix = path.drop_last();
        let p = path.last();
        let prev = prefix.last();
        assert(is_path(ctx, prefix)) by {
            assert(prefix[0] == path[0]);
            assert forall|i: int| 0 <= i < prefix.len() - 1 implies (
            #[trigger] prefix[i]).is_adjacent(prefix[i + 1]) by {
                assert(prefix[i] == path[i]);
                assert(prefix[i + 1] == path[i + 1]);
            }
            assert forall|i: int| 1 <= i < prefix.len() implies enterable(
                ctx,
                #[trigger] prefix[i],
            ) by {
                assert(prefix[i] == path[i]);
            }
        }
        assert(enterable(ctx, p));
        lemma_path_cost_nonneg(ctx, prefix);
        lemma_step_cost_pos(ctx.mover, ctx.terrain[ctx_idx(ctx, p)]);
        assert(path_cost(ctx, path) == path_cost(ctx, prefix) + step_cost(ctx, p));
        lemma_cost_minimal(m, prefix);
        assert(prev.is_adjacent(p)) by {
            assert(prev == path[path.len() - 2]);
        }
        assert(!relaxable(ctx, m.cost@, prev, p));
        assert(grid_at(ctx, m.cost@, prev) + step_cost(ctx, p) <= ctx.budget);
    }
}

/// Achievability: the recorded cost of every reachable cell is within the
/// budget and is attained by an admissible walk ending at that cell.
pub proof fn lemma_cost_achievable(m: DijkstraMap, goal: Point)
    requires
        m.wf(),
        m.reachable(goal),
    ensures
        m.cost_of(goal) <= m.ctx().budget,
        exists|path: Seq<Point>|
            is_path(m.ctx(), path) && (#[trigger] path_cost(m.ctx(), path)) == m.cost_of(goal)
                && path.last() == goal,
    decreases m.cost_of(goal),
{
    let ctx = m.ctx();
    if goal == ctx.start {
        let w = seq![ctx.start];
        assert(is_path(ctx, w));
        assert(path_cost(ctx, w) == 0);
        assert(w.last() == goal);
    } else {
        assert(chain_ok(ctx, m.cost@, m.came_from@, goal));
        let q = m.pred_of(goal)->Some_0;
        lemma_cost_achievable(m, q);
        let pq = choose|pq: Seq<Point>|
            is_path(ctx, pq) && (#[trigger] path_cost(ctx, pq)) == m.cost_of(q) && pq.last() == q;
        let w = pq.push(goal);
        assert(is_path(ctx, w)) by {
            assert(w[0] == pq[0]);
            assert forall|i: int| 0 <= i < w.len() - 1 implies (#[trigger] w[i]).is_adjacent(
                w[i + 1],
            ) by {
                if i < pq.len() - 1 {
                    assert(w[i] == pq[i]);
                    assert(w[i + 1] == pq[i + 1]);
                } else {
                    assert(w[i] == pq.last());
                    assert(w[i + 1] == goal);
                    assert(q.is_adjacent(goal));
                }
            }
            assert forall|i: int| 1 <= i < w.len() implies enterable(ctx, #[trigger] w[i]) by {
                if i < pq.len() {
                    assert(w[i] == pq[i]);
                } else {
                    assert(w[i] == goal);
                }
            }
        }
        assert(w.drop_last() =~= pq);
        assert(path_cost(ctx, w) == m.cost_of(q) + step_cost(ctx, goal));
        assert(path_cost(ctx, w) <= m.cost_of(goal));
        lemma_cost_minimal(m, w);
        assert(path_cost(ctx, w) == m.cost_of(goal));
        assert(w.last() == goal);
    }
}

/// All cells within taxicab distance `range` of `from`, excluding `from`
/// itself, without duplicates, in a fixed order (ascending x offset, then
/// ascending y offset).
pub fn get_manahattan_neighbours(from: Point, range: i32) -> (r: Vec<Point>)
    requires
        0 <= range < i32::MAX,
        from.x + range <= i32::MAX,
        from.x - range >= i32::MIN,
        from.y + range <= i32::MAX,
        from.y - range >= i32::MIN,
    ensures
        forall|p: Point| #[trigger] r@.contains(p) <==> 0 < from.manhattan_dist(p) <= range,
        r@.no_duplicates(),
{
    let mut out: Vec<Point> = Vec::new();
    let mut dx: i32 = -range;
    while dx <= range
        invariant
            0 <= range < i32::MAX,
            from.x + range <= i32::MAX,
            from.x - range >= i32::MIN,
            from.y + range <= i32::MAX,
            from.y - range >= i32::MIN,
            -range <= dx <= range + 1,
            out@.no_duplicates(),
            forall|p: Point|
                #[trigger] out@.contains(p) <==> (0 < from.manhattan_dist(p) <= range && p.x
                    - from.x < dx),
        decreases range + 1 - dx,
    {
        let mut dy: i32 = -range;
        while dy <= range
            invariant
                0 <= range < i32::MAX,
                from.x + range <= i32::MAX,
                from.x - range >= i32::MIN,
                from.y + range <= i32::MAX,
                from.y - range >= i32::MIN,
                -range <= dx <= range,
                -range <= dy <= range + 1,
                out@.no_duplicates(),
                forall|p: Point|
                    #[trigger] out@.contains(p) <==> (0 < from.manhattan_dist(p) <= range && (p.x
                        - from.x < dx || (p.x - from.x == dx && p.y - from.y < dy))),
            decreases range + 1 - dy,
        {
            let adx = if dx < 0 {
                -dx
            } else {
                dx
            };
            let ady = if dy < 0 {
                -dy
            } else {
                dy
            };
            if !(dx == 0 && dy == 0) && adx <= range - ady {
                let p = Point { x: from.x + dx, y: from.y + dy };
                proof {
                    broadcast use vstd::seq_lib::lemma_seq_contains_after_push;

                    assert(from.manhattan_dist(p) == adx + ady);
                    assert(!out@.contains(p));
                    lemma_push_no_duplicates(out@, p);
                }
                out.push(p);
            }
            dy = dy + 1;
        }
        dx = dx + 1;
    }
    out
}

/// An opposing-faction unit stands on `pos`.
fn occupied_by_opponent(units: &Vec<Unit>, faction: Faction, pos: Point) -> (r: bool)
    ensures
        r == blocked_set(units@, faction).contains(pos),
{
    let n = units.len();
    let mut i: usize = 0;
    while i < n
        invariant
            i <= n,
            n == units@.len(),
            forall|j: int|
                0 <= j < i ==> !((#[trigger] units@[j]).faction != faction && units@[j].pos
                    == pos),
        decreases n - i,
    {
        let u = units[i];
        if !(u.faction == faction) && u.pos == pos {
            assert(blocked_set(units@, faction).contains(pos));
            return true;
        }
        i = i + 1;
    }
    assert(!blocked_set(units@, faction).contains(pos));
    false
}

/// Try to relax the edge from `pos` one step in direction (dx, dy): skip the
/// step if it leaves the grid, is blocked or impassable, or busts the
/// budget; otherwise record the improved cost and predecessor and enqueue
/// the cell.
#[verifier::rlimit(60)]
fn relax_dir(
    map: &GameMap,
    target: &Unit,
    units: &Vec<Unit>,
    pos: Point,
    dist: u32,
    dx: i32,
    dy: i32,
    cost: &mut Vec<u32>,
    came_from: &mut Vec<Option<Point>>,
    frontier: &mut Vec<Node>,
    Ghost(ctx): Ghost<SearchCtx>,
)
    requires
        map.wf(),
        ctx == search_ctx_of(*map, *target, units@),
        ctx_wf(ctx),
        ctx_in_bounds(ctx, pos),
        old(cost)@.len() == ctx.width * ctx.height,
        old(came_from)@.len() == ctx.width * ctx.height,
        grid_at(ctx, old(cost)@, pos) != UNREACHABLE,
        dist == grid_at(ctx, old(cost)@, pos),
        dist <= ctx.budget,
        grid_at(ctx, old(cost)@, ctx.start) == 0,
        grid_at(ctx, old(came_from)@, ctx.start) is None,
        inv_costs_bounded(ctx, old(cost)@),
        inv_chain(ctx, old(cost)@, old(came_from)@),
        frontier_ok(ctx, old(cost)@, old(frontier)@),
        (dx == 0 && (dy == 1 || dy == -1)) || (dy == 0 && (dx == 1 || dx == -1)),
    ensures
        final(cost)@.len() == old(cost)@.len(),
        final(came_from)@.len() == old(came_from)@.len(),
        grid_at(ctx, final(cost)@, ctx.start) == 0,
        grid_at(ctx, final(came_from)@, ctx.start) is None,
        inv_costs_bounded(ctx, final(cost)@),
        inv_chain(ctx, final(cost)@, final(came_from)@),
        frontier_ok(ctx, final(cost)@, final(frontier)@),
        grid_at(ctx, final(cost)@, pos) == dist,
        forall|p: Point|
            ctx_in_bounds(ctx, p) && p != step_target(pos, dx as int, dy as int) ==> grid_at(
                ctx,
                final(cost)@,
                p,
            ) == grid_at(ctx, old(cost)@, p),
        forall|p: Point, d: u32|
            #[trigger] has_witness(old(frontier)@, p, d) ==> has_witness(final(frontier)@, p, d),
        !relaxable(ctx, final(cost)@, pos, step_target(pos, dx as int, dy as int)),
        forall|p: Point, q: Point|
            #[trigger] relaxable(ctx, final(cost)@, p, q) ==> (grid_at(ctx, final(cost)@, p)
                == grid_at(ctx, old(cost)@, p) && relaxable(ctx, old(cost)@, p, q))
                || has_witness(final(frontier)@, p, grid_at(ctx, final(cost)@, p)),
        final(cost)@ == old(cost)@ || seq_sum(final(cost)@) < seq_sum(old(cost)@),
        final(cost)@ == old(cost)@ ==> final(frontier)@ == old(frontier)@,
{
    let ghost npos_s = step_target(pos, dx as int, dy as int);
    let npos = pos.shifted(dx, dy);
    assert(npos == npos_s);
    if !map.in_bounds(npos) {
        assert(!ctx_in_bounds(ctx, npos_s));
        return ;
    }
    if occupied_by_opponent(units, target.faction, npos) {
        assert(ctx.blocked.contains(npos_s));
        return ;
    }
    let mc = target.get_movement_cost(map.get_terrain(npos));
    assert(mc == step_cost(ctx, npos_s));
    if mc == UNREACHABLE {
        return ;
    }
    assert(enterable(ctx, npos_s));
    if mc > target.movement - dist {
        assert(grid_at(ctx, cost@, pos) + step_cost(ctx, npos_s) > ctx.budget);
        return ;
    }
    let next = dist + mc;
    let ni = map.point_to_idx(npos);
    proof {
        lemma_grid_idx_bounds(ctx.width, ctx.height, npos.x as int, npos.y as int);
    }
    let prev = cost[ni];
    assert(prev == grid_at(ctx, cost@, npos_s));
    if prev == UNREACHABLE || next < prev {
        let ghost cost0 = cost@;
        let ghost pred0 = came_from@;
        cost.set(ni, next);
        came_from.set(ni, Some(pos));
        frontier.push(Node { pos: npos, dist: next });
        proof {
            lemma_grid_update(ctx, cost0, npos_s, next);
            lemma_grid_update(ctx, pred0, npos_s, Some(pos));
            lemma_step_cost_pos(ctx.mover, ctx.terrain[ctx_idx(ctx, npos_s)]);
            lemma_seq_sum_update(cost0, ctx_idx(ctx, npos_s), next);
            assert(seq_sum(cost@) < seq_sum(cost0));
            assert(npos_s != pos);
            assert(npos_s != ctx.start) by {
                if npos_s == ctx.start {
                    assert(grid_at(ctx, cost0, npos_s) == 0);
                }
            }
            assert(grid_at(ctx, cost@, npos_s) == next);
            assert(pos.is_adjacent(npos_s));
            // chain link for the stepped-to cell
            assert(chain_ok(ctx, cost@, came_from@, npos_s)) by {
                assert(grid_at(ctx, came_from@, npos_s) == Some(pos));
                assert(grid_at(ctx, cost@, pos) == dist);
                assert(mc >= 1);
            }
            // chain links elsewhere survive: their cells and predecessors
            // only ever got cheaper
            assert forall|p: Point|
                ctx_in_bounds(ctx, p) && p != ctx.start && #[trigger] grid_at(ctx, cost@, p)
                    != UNREACHABLE && p != npos_s implies chain_ok(ctx, cost@, came_from@, p) by {
                assert(chain_ok(ctx, cost0, pred0, p));
                let q = grid_at(ctx, pred0, p)->Some_0;
                assert(grid_at(ctx, came_from@, p) == grid_at(ctx, pred0, p));
                if q == npos_s {
                    assert(grid_at(ctx, cost@, q) == next);
                    assert(next < grid_at(ctx, cost0, q) || grid_at(ctx, cost0, q)
                        == UNREACHABLE);
                } else {
                    assert(grid_at(ctx, cost@, q) == grid_at(ctx, cost0, q));
                }
            }
            // frontier entries stay consistent: the one touched cell got
            // cheaper, and the new entry is fresh
            assert forall|k: int| 0 <= k < frontier@.len() implies node_ok(
                ctx,
                cost@,
                #[trigger] frontier@[k],
            ) by {
                if k < frontier@.len() - 1 {
                    let nd = frontier@[k];
                    assert(node_ok(ctx, cost0, nd));
                    if nd.pos == npos_s {
                        assert(grid_at(ctx, cost@, nd.pos) == next);
                    } else {
                        assert(grid_at(ctx, cost@, nd.pos) == grid_at(ctx, cost0, nd.pos));
                    }
                } else {
                    assert(frontier@[k] == (Node { pos: npos, dist: next }));
                }
            }
            // witnesses survive a push
            assert forall|p: Point, d: u32| #[trigger] has_witness(
                old(frontier)@,
                p,
                d,
            ) implies has_witness(frontier@, p, d) by {
                lemma_witness_push(old(frontier)@, Node { pos: npos, dist: next }, p, d);
            }
            // the handled edge is settled
            assert(!relaxable(ctx, cost@, pos, npos_s));
            // any relaxable edge either predates this step or starts at the
            // stepped-to cell, which has a fresh entry
            assert forall|p: Point, q: Point| #[trigger] relaxable(
                ctx,
                cost@,
                p,
                q,
            ) implies (grid_at(ctx, cost@, p) == grid_at(ctx, cost0, p) && relaxable(
                ctx,
                cost0,
                p,
                q,
            )) || has_witness(frontier@, p, grid_at(ctx, cost@, p)) by {
                if p == npos_s {
                    let k = frontier@.len() - 1;
                    assert(frontier@[k].pos == npos_s && frontier@[k].dist == next);
                    assert(has_witness(frontier@, p, grid_at(ctx, cost@, p)));
                } else {
                    assert(grid_at(ctx, cost@, p) == grid_at(ctx, cost0, p));
                    if q == npos_s {
                        assert(next < grid_at(ctx, cost0, q) || grid_at(ctx, cost0, q)
                            == UNREACHABLE);
                        assert(relaxable(ctx, cost0, p, q));
                    } else {
                        assert(grid_at(ctx, cost@, q) == grid_at(ctx, cost0, q));
                        assert(relaxable(ctx, cost0, p, q));
                    }
                }
            }
        }
    } else {
        assert(!relaxable(ctx, cost@, pos, npos_s));
    }
}

/// A cell 4-adjacent to `p` is one step away in one of the four directions.
proof fn lemma_adjacent_cases(ctx: SearchCtx, p: Point, q: Point)
    requires
        ctx_wf(ctx),
        ctx_in_bounds(ctx, p),
        p.is_adjacent(q),
    ensures
        q == step_target(p, 0, 1) || q == step_target(p, 0, -1) || q == step_target(p, 1, 0)
            || q == step_target(p, -1, 0),
{
    if p.x == q.x {
        if q.y - p.y == 1 {
            assert(q == step_target(p, 0, 1));
        } else {
            assert(q == step_target(p, 0, -1));
        }
    } else {
        if q.x - p.x == 1 {
            assert(q == step_target(p, 1, 0));
        } else {
            assert(q == step_target(p, -1, 0));
        }
    }
}

impl DijkstraMap {
    /// Run the search: uniform-cost expansion over 4-connected neighbours,
    /// with ties broken deterministically (lowest distance, then ascending x,
    /// then ascending y), so path choice is reproducible — the search reads
    /// nothing but its arguments, so equal inputs give identical results.
    /// The contract pins the reachable list, every recorded cost and the
    /// validity of every predecessor link; which of several equally cheap
    /// predecessors a cell records is fixed by the tie-break above but left
    /// open by the contract.
    #[verifier::rlimit(100)]
    pub fn new(map: &GameMap, target: &Unit, units: &Vec<Unit>) -> (r: DijkstraMap)
        requires
            map.wf(),
            map.in_bounds_spec(target.pos),
            target.movement < UNREACHABLE,
        ensures
            r.wf(),
            r.ctx() == search_ctx_of(*map, *target, units@),
    {
        let ghost ctx = search_ctx_of(*map, *target, units@);
        let n = map.width * map.height;
        let mut cost: Vec<u32> = Vec::new();
        let mut came_from: Vec<Option<Point>> = Vec::new();
        let mut i: usize = 0;
        while i < n
            invariant
                i <= n,
                cost@.len() == i,
                came_from@.len() == i,
                forall|k: int| 0 <= k < i ==> cost@[k] == UNREACHABLE,
                forall|k: int| 0 <= k < i ==> #[trigger] came_from@[k] is None,
            decreases n - i,
        {
            cost.push(UNREACHABLE);
            came_from.push(None);
            i = i + 1;
        }
        let start = target.pos;
        let si = map.point_to_idx(start);
        cost.set(si, 0);
        let mut frontier: Vec<Node> = Vec::new();
        frontier.push(Node { pos: start, dist: 0 });
        proof {
            assert(si == ctx_idx(ctx, ctx.start));
            assert(grid_at(ctx, cost@, ctx.start) == 0);
            assert forall|p: Point| ctx_in_bounds(ctx, p) && p != ctx.start implies grid_at(
                ctx,
                cost@,
                p,
            ) == UNREACHABLE by {
                lemma_grid_idx_bounds(ctx.width, ctx.height, p.x as int, p.y as int);
                if ctx_idx(ctx, p) == si {
                    lemma_grid_idx_injective(
                        ctx.width,
                        p.x as int,
                        p.y as int,
                        ctx.start.x as int,
                        ctx.start.y as int,
                    );
                }
            }
            assert(inv_costs_bounded(ctx, cost@));
            assert(inv_chain(ctx, cost@, came_from@));
            assert(frontier_ok(ctx, cost@, frontier@));
            assert forall|p: Point, q: Point| #[trigger] relaxable(
                ctx,
                cost@,
                p,
                q,
            ) implies has_witness(frontier@, p, grid_at(ctx, cost@, p)) by {
                assert(p == ctx.start);
                assert(frontier@[0].pos == p && frontier@[0].dist == 0);
            }
            lemma_seq_sum_nonneg(cost@);
        }
        while frontier.len() > 0
            invariant
                map.wf(),
                ctx == search_ctx_of(*map, *target, units@),
                ctx_wf(ctx),
                cost@.len() == ctx.width * ctx.height,
                came_from@.len() == ctx.width * ctx.height,
                grid_at(ctx, cost@, ctx.start) == 0,
                grid_at(ctx, came_from@, ctx.start) is None,
                inv_costs_bounded(ctx, cost@),
                inv_chain(ctx, cost@, came_from@),
                frontier_ok(ctx, cost@, frontier@),
                inv_workset(ctx, cost@, frontier@),
                seq_sum(cost@) >= 0,
            decreases seq_sum(cost@), frontier@.len(),
        {
            let mut best: usize = 0;
            let mut k: usize = 1;
            while k < frontier.len()
                invariant
                    1 <= frontier@.len(),
                    best < frontier@.len(),
                    1 <= k <= frontier@.len(),
                decreases frontier@.len() - k,
            {
                let a = frontier[k];
                let b = frontier[best];
                if a.dist < b.dist || (a.dist == b.dist && (a.pos.x < b.pos.x || (a.pos.x
                    == b.pos.x && a.pos.y < b.pos.y))) {
                    best = k;
                }
                k = k + 1;
            }
            let ghost fr_pre = frontier@;
            let node = frontier.remove(best);
            let pos = node.pos;
            let dist = node.dist;
            proof {
                assert(node == fr_pre[best as int]);
                assert(node_ok(ctx, cost@, node));
            }
            let pi = map.point_to_idx(pos);
            proof {
                lemma_grid_idx_bounds(ctx.width, ctx.height, pos.x as int, pos.y as int);
            }
            let cur = cost[pi];
            assert(cur == grid_at(ctx, cost@, pos));
            if dist > cur {
                // stale entry: the cell's cost improved after this entry was
                // enqueued; a fresh entry is still out there
                proof {
                    assert forall|p: Point, q: Point| #[trigger] relaxable(
                        ctx,
                        cost@,
                        p,
                        q,
                    ) implies has_witness(frontier@, p, grid_at(ctx, cost@, p)) by {
                        lemma_witness_remove(fr_pre, best as int, p, grid_at(ctx, cost@, p));
                    }
                }
                continue ;
            }
            assert(dist == cur);
            let ghost c0 = cost@;
            let ghost f0 = frontier@;
            proof {
                assert forall|p: Point, q: Point|
                    relaxable(ctx, c0, p, q) && p != pos implies has_witness(
                    f0,
                    p,
                    grid_at(ctx, c0, p),
                ) by {
                    lemma_witness_remove(fr_pre, best as int, p, grid_at(ctx, c0, p));
                }
            }
            relax_dir(map, target, units, pos, dist, 0, 1, &mut cost, &mut came_from, &mut frontier, Ghost(ctx));
            let ghost c1 = cost@;
            let ghost f1 = frontier@;
            relax_dir(map, target, units, pos, dist, 0, -1, &mut cost, &mut came_from, &mut frontier, Ghost(ctx));
            let ghost c2 = cost@;
            let ghost f2 = frontier@;
            relax_dir(map, target, units, pos, dist, 1, 0, &mut cost, &mut came_from, &mut frontier, Ghost(ctx));
            let ghost c3 = cost@;
            let ghost f3 = frontier@;
            relax_dir(map, target, units, pos, dist, -1, 0, &mut cost, &mut came_from, &mut frontier, Ghost(ctx));
            let ghost c4 = cost@;
            let ghost f4 = frontier@;
            proof {
                assert forall|p: Point, q: Point| #[trigger] relaxable(
                    ctx,
                    c4,
                    p,
                    q,
                ) implies has_witness(f4, p, grid_at(ctx, c4, p)) by {
                    if !has_witness(f4, p, grid_at(ctx, c4, p)) {
                        // walk the four relaxations backwards: the edge was
                        // already relaxable before each of them, at the same
                        // source cost, and never gained a fresh entry
                        assert(grid_at(ctx, c4, p) == grid_at(ctx, c3, p) && relaxable(
                            ctx,
                            c3,
                            p,
                            q,
                        ));
                        assert(!has_witness(f3, p, grid_at(ctx, c3, p)));
                        assert(grid_at(ctx, c3, p) == grid_at(ctx, c2, p) && relaxable(
                            ctx,
                            c2,
                            p,
                            q,
                        ));
                        assert(!has_witness(f2, p, grid_at(ctx, c2, p)));
                        assert(grid_at(ctx, c2, p) == grid_at(ctx, c1, p) && relaxable(
                            ctx,
                            c1,
                            p,
                            q,
                        ));
                        assert(!has_witness(f1, p, grid_at(ctx, c1, p)));
                        assert(grid_at(ctx, c1, p) == grid_at(ctx, c0, p) && relaxable(
                            ctx,
                            c0,
                            p,
                            q,
                        ));
                        assert(!has_witness(f0, p, grid_at(ctx, c0, p)));
                        if p == pos {
                            // every neighbour of the popped cell was settled
                            // by one of the four relaxations
                            lemma_adjacent_cases(ctx, pos, q);
                            assert(grid_at(ctx, c1, pos) == dist);
                            assert(grid_at(ctx, c2, pos) == dist);
                            assert(grid_at(ctx, c3, pos) == dist);
                            assert(grid_at(ctx, c4, pos) == dist);
                            assert(!relaxable(ctx, c1, pos, step_target(pos, 0, 1)));
                            assert(!relaxable(ctx, c2, pos, step_target(pos, 0, -1)));
                            assert(!relaxable(ctx, c3, pos, step_target(pos, 1, 0)));
                            assert(!relaxable(ctx, c4, pos, step_target(pos, -1, 0)));
                            assert(false);
                        } else {
                            assert(has_witness(f0, p, grid_at(ctx, c0, p)));
                            assert(false);
                        }
                    }
                }
                lemma_seq_sum_nonneg(cost@);
            }
        }
        proof {
            assert forall|p: Point, q: Point| !relaxable(ctx, cost@, p, q) by {
                if relaxable(ctx, cost@, p, q) {
                    assert(has_witness(frontier@, p, grid_at(ctx, cost@, p)));
                }
            }
        }
        let mut reachables: Vec<Point> = Vec::new();
        let mut yy: usize = 0;
        while yy < map.height
            invariant
                map.wf(),
                ctx == search_ctx_of(*map, *target, units@),
                ctx_wf(ctx),
                yy <= map.height,
                cost@.len() == ctx.width * ctx.height,
                reachables@.no_duplicates(),
                forall|p: Point|
                    #[trigger] reachables@.contains(p) <==> (ctx_in_bounds(ctx, p) && grid_at(
                        ctx,
                        cost@,
                        p,
                    ) != UNREACHABLE && p.y < yy),
                forall|k: int|
                    0 <= k < reachables@.len() ==> (#[trigger] reachables@[k]).y < yy,
                forall|i: int, j: int|
                    0 <= i < j < reachables@.len() ==> row_major_lt(
                        #[trigger] reachables@[i],
                        #[trigger] reachables@[j],
                    ),
            decreases map.height - yy,
        {
            let mut xx: usize = 0;
            while xx < map.width
                invariant
                    map.wf(),
                    ctx == search_ctx_of(*map, *target, units@),
                    ctx_wf(ctx),
                    yy < map.height,
                    xx <= map.width,
                    cost@.len() == ctx.width * ctx.height,
                    reachables@.no_duplicates(),
                    forall|p: Point|
                        #[trigger] reachables@.contains(p) <==> (ctx_in_bounds(ctx, p) && grid_at(
                            ctx,
                            cost@,
                            p,
                        ) != UNREACHABLE && (p.y < yy || (p.y == yy && p.x < xx))),
                    forall|k: int|
                        0 <= k < reachables@.len() ==> ((#[trigger] reachables@[k]).y < yy || (
                        reachables@[k].y == yy && reachables@[k].x < xx)),
                    forall|i: int, j: int|
                        0 <= i < j < reachables@.len() ==> row_major_lt(
                            #[trigger] reachables@[i],
                            #[trigger] reachables@[j],
                        ),
                decreases map.width - xx,
            {
                let pt = Point { x: xx as i32, y: yy as i32 };
                let ci = map.point_to_idx(pt);
                proof {
                    lemma_grid_idx_bounds(ctx.width, ctx.height, pt.x as int, pt.y as int);
                }
                if cost[ci] != UNREACHABLE {
                    proof {
                        broadcast use vstd::seq_lib::lemma_seq_contains_after_push;

                        assert(!reachables@.contains(pt));
                        lemma_push_no_duplicates(reachables@, pt);
                    }
                    reachables.push(pt);
                }
                xx = xx + 1;
            }
            yy = yy + 1;
        }
        let r = DijkstraMap {
            reachables,
            cost,
            came_from,
            start,
            width: map.width,
            height: map.height,
            budget: target.movement,
            search: Ghost(ctx),
        };
        assert(r.wf());
        r
    }
}

} // verus!
