//! Fewest-jump route planning over the stored systems.
//!
//! The stored systems form a graph: two systems are joined when they lie
//! within one jump range of each other. A route is a walk in that graph, and
//! the planner returns one with the fewest jumps. The search itself is the A*
//! of the `pathfinding` crate; this module supplies its successor function
//! and its heuristic, proves that the heuristic never overestimates, and
//! states what the search returns.

use vstd::prelude::*;
use crate::error::Error;
use crate::geometry::{
    is_hop_estimate,
    lemma_hop_estimate_is_least,
    lemma_one_more_jump,
    square,
};
use crate::store::{
    Database,
    is_first_named,
    is_unnamed,
    lemma_rows_within_empty,
    lemma_rows_within_step,
    rows_within,
    unique_addresses,
};
use crate::systems::{System, SystemView, uppercase, views};

verus! {

/// `path` is a chain of stored systems in which every system lies within
/// `range` of the one before it.
pub open spec fn is_route(rows: Seq<SystemView>, path: Seq<SystemView>, range: int) -> bool {
    &&& path.len() >= 1
    &&& forall|i: int| 0 <= i < path.len() ==> rows.contains(#[trigger] path[i])
    &&& forall|i: int|
        0 <= i < path.len() - 1 ==> (#[trigger] path[i]).position.reaches(
            path[i + 1].position,
            range,
        )
}

/// `path` is a route that starts at `start` and ends at the system with the
/// address of `end`.
pub open spec fn connects(
    rows: Seq<SystemView>,
    path: Seq<SystemView>,
    start: SystemView,
    end: SystemView,
    range: int,
) -> bool {
    &&& is_route(rows, path, range)
    &&& path.first() == start
    &&& path.last().address == end.address
}

/// `path` connects `start` to `end`, and no route between them has fewer
/// systems.
pub open spec fn is_shortest(
    rows: Seq<SystemView>,
    path: Seq<SystemView>,
    start: SystemView,
    end: SystemView,
    range: int,
) -> bool {
    &&& connects(rows, path, start, end, range)
    &&& forall|other: Seq<SystemView>| #[trigger]
        connects(rows, other, start, end, range) ==> path.len() <= other.len()
}

/// No route leads from `start` to `end`.
pub open spec fn is_unreachable(
    rows: Seq<SystemView>,
    start: SystemView,
    end: SystemView,
    range: int,
) -> bool {
    forall|path: Seq<SystemView>| !#[trigger] connects(rows, path, start, end, range)
}

/// The route that the search settles on. Several routes may tie for the
/// fewest jumps; which of them is returned is decided by the order in which
/// the search meets the stored systems, and by nothing else: the same table,
/// systems and range always give the same route.
pub uninterp spec fn searched(
    rows: Seq<SystemView>,
    start: SystemView,
    end: SystemView,
    range: int,
) -> Option<Seq<SystemView>>;

/// `plan` is what the planner owes for a request: the route that the search
/// settles on together with its number of jumps, where that route is a
/// shortest one from `start` to `end`; or nothing, where no route exists.
pub open spec fn is_plan(
    rows: Seq<SystemView>,
    start: SystemView,
    end: SystemView,
    range: int,
    plan: Option<(Vec<System>, u64)>,
) -> bool {
    match plan {
        Some((path, cost)) => {
            &&& is_shortest(rows, views(path@), start, end, range)
            &&& views(path@).last() == end
            &&& cost == path@.len() - 1
            &&& searched(rows, start, end, range) == Some(views(path@))
        },
        None => {
            &&& is_unreachable(rows, start, end, range)
            &&& searched(rows, start, end, range) is None
        },
    }
}

/// The planner's heuristic is admissible: from wherever a route to `end`
/// starts, the estimated number of jumps is at most the number of jumps of
/// that route.
pub open spec fn never_overestimates(rows: Seq<SystemView>, end: SystemView, range: int) -> bool {
    forall|path: Seq<SystemView>, k: int|
        #[trigger] is_route(rows, path, range) && path.last().address == end.address
            && #[trigger] is_hop_estimate(
            path.first().position.distance_squared_to(end.position),
            range,
            k,
        ) ==> k <= path.len() - 1
}

/// A route of `n` jumps ends within `n` jump lengths of where it starts.
pub proof fn lemma_route_span(rows: Seq<SystemView>, path: Seq<SystemView>, range: int)
    requires
        is_route(rows, path, range),
        0 <= range,
    ensures
        path.first().position.distance_squared_to(path.last().position) <= square(
            (path.len() - 1) * range,
        ),
    decreases path.len(),
{
    if path.len() == 1 {
        let p = path[0].position;
        assert(square(p.x - p.x) + square(p.y - p.y) + square(p.z - p.z) == 0);
        assert(square(0 * range) == 0) by (nonlinear_arith);
    } else {
        let rest = path.drop_first();
        assert forall|i: int| 0 <= i < rest.len() implies rows.contains(#[trigger] rest[i]) by {
            assert(rest[i] == path[i + 1]);
        }
        assert forall|i: int| 0 <= i < rest.len() - 1 implies (#[trigger] rest[i]).position.reaches(
            rest[i + 1].position,
            range,
        ) by {
            assert(rest[i] == path[i + 1]);
            assert(rest[i + 1] == path[i + 2]);
        }
        lemma_route_span(rows, rest, range);
        assert(rest.first() == path[1]);
        assert(rest.last() == path.last());
        assert(path[0].position.reaches(path[1].position, range));
        lemma_one_more_jump(
            path[0].position,
            path[1].position,
            path.last().position,
            range,
            rest.len() - 1,
        );
    }
}

/// The heuristic of the planner is admissible: the distance to the goal
/// divided by the jump range, rounded up, is at most the length of any route
/// to the goal.
pub proof fn lemma_estimate_never_overestimates(
    rows: Seq<SystemView>,
    end: SystemView,
    range: int,
)
    requires
        unique_addresses(rows),
        rows.contains(end),
        0 <= range,
    ensures
        never_overestimates(rows, end, range),
{
    assert forall|path: Seq<SystemView>, k: int|
        #[trigger] is_route(rows, path, range) && path.last().address == end.address
            && #[trigger] is_hop_estimate(
            path.first().position.distance_squared_to(end.position),
            range,
            k,
        ) implies k <= path.len() - 1 by {
        lemma_route_span(rows, path, range);
        lemma_same_address_same_row(rows, path.last(), end);
        lemma_hop_estimate_is_least(
            path.first().position.distance_squared_to(end.position),
            range,
            k,
            path.len() - 1,
        );
    }
}

/// In a table whose addresses are unique, two rows with one address are one
/// row.
pub proof fn lemma_same_address_same_row(rows: Seq<SystemView>, a: SystemView, b: SystemView)
    requires
        unique_addresses(rows),
        rows.contains(a),
        rows.contains(b),
        a.address == b.address,
    ensures
        a == b,
{
    let i = choose|i: int| 0 <= i < rows.len() && rows[i] == a;
    let j = choose|j: int| 0 <= j < rows.len() && rows[j] == b;
    if i != j {
        assert(rows[i].address != rows[j].address);
    }
}

/// A route that connects `start` to `end` ends at `end` itself, the stored
/// row, not merely at a system with its address.
pub proof fn lemma_route_ends_at_goal(
    rows: Seq<SystemView>,
    path: Seq<SystemView>,
    start: SystemView,
    end: SystemView,
    range: int,
)
    requires
        unique_addresses(rows),
        rows.contains(end),
        connects(rows, path, start, end, range),
    ensures
        path.last() == end,
{
    assert(rows.contains(path[path.len() - 1]));
    lemma_same_address_same_row(rows, path.last(), end);
}

/// Idempotent routing: two shortest routes between the same systems have the
/// same length, and so the same cost, whichever of the tied routes each is.
pub proof fn lemma_shortest_routes_agree(
    rows: Seq<SystemView>,
    one: Seq<SystemView>,
    other: Seq<SystemView>,
    start: SystemView,
    end: SystemView,
    range: int,
)
    requires
        is_shortest(rows, one, start, end, range),
        is_shortest(rows, other, start, end, range),
    ensures
        one.len() == other.len(),
{
}

/// Where a route exists the goal is not unreachable: a plan is never both a
/// route and `None`.
pub proof fn lemma_route_excludes_unreachable(
    rows: Seq<SystemView>,
    path: Seq<SystemView>,
    start: SystemView,
    end: SystemView,
    range: int,
)
    requires
        connects(rows, path, start, end, range),
    ensures
        !is_unreachable(rows, start, end, range),
{
}

/// Self-route: the shortest route from a stored system to itself is that
/// system alone, with no jump, whatever the range.
pub proof fn lemma_route_to_self(
    rows: Seq<SystemView>,
    path: Seq<SystemView>,
    system: SystemView,
    range: int,
)
    requires
        rows.contains(system),
        is_shortest(rows, path, system, system, range),
    ensures
        path == seq![system],
        !is_unreachable(rows, system, system, range),
{
    let alone = seq![system];
    assert(connects(rows, alone, system, system, range));
    assert(path.len() == 1);
    assert(path =~= alone);
}

/// The distance between two points does not depend on the direction.
pub proof fn lemma_reaches_is_symmetric(a: SystemView, b: SystemView, range: int)
    ensures
        a.position.reaches(b.position, range) == b.position.reaches(a.position, range),
{
    let (p, q) = (a.position, b.position);
    assert(square(p.x - q.x) == square(q.x - p.x)) by (nonlinear_arith);
    assert(square(p.y - q.y) == square(q.y - p.y)) by (nonlinear_arith);
    assert(square(p.z - q.z) == square(q.z - p.z)) by (nonlinear_arith);
}

/// A route travelled backwards is a route: it connects `end` to `start` with
/// the same systems in reverse order.
pub proof fn lemma_reverse_route(
    rows: Seq<SystemView>,
    path: Seq<SystemView>,
    start: SystemView,
    end: SystemView,
    range: int,
)
    requires
        unique_addresses(rows),
        rows.contains(end),
        connects(rows, path, start, end, range),
    ensures
        connects(rows, path.reverse(), end, start, range),
        path.reverse().len() == path.len(),
{
    let back = path.reverse();
    let n = path.len() as int;
    lemma_route_ends_at_goal(rows, path, start, end, range);
    assert forall|i: int| 0 <= i < back.len() implies rows.contains(#[trigger] back[i]) by {
        assert(back[i] == path[n - 1 - i]);
    }
    assert forall|i: int| 0 <= i < back.len() - 1 implies (#[trigger] back[i]).position.reaches(
        back[i + 1].position,
        range,
    ) by {
        assert(back[i] == path[n - 1 - i]);
        assert(back[i + 1] == path[n - 2 - i]);
        assert(path[n - 2 - i].position.reaches(path[n - 2 - i + 1].position, range));
        lemma_reaches_is_symmetric(path[n - 2 - i], path[n - 1 - i], range);
    }
    assert(back.first() == path[n - 1]);
    assert(back.last() == path[0]);
}

/// Symmetry: a shortest route from `a` to `b` and a shortest route from `b`
/// to `a` have the same length, and so the same cost.
pub proof fn lemma_shortest_is_symmetric(
    rows: Seq<SystemView>,
    there: Seq<SystemView>,
    back: Seq<SystemView>,
    a: SystemView,
    b: SystemView,
    range: int,
)
    requires
        unique_addresses(rows),
        rows.contains(a),
        rows.contains(b),
        is_shortest(rows, there, a, b, range),
        is_shortest(rows, back, b, a, range),
    ensures
        there.len() == back.len(),
{
    lemma_reverse_route(rows, there, a, b, range);
    lemma_reverse_route(rows, back, b, a, range);
    assert(connects(rows, there.reverse(), b, a, range));
    assert(connects(rows, back.reverse(), a, b, range));
}

/// Symmetry of reachability: if no route leads from `a` to `b`, none leads
/// from `b` to `a`.
pub proof fn lemma_unreachable_is_symmetric(
    rows: Seq<SystemView>,
    a: SystemView,
    b: SystemView,
    range: int,
)
    requires
        unique_addresses(rows),
        rows.contains(a),
        rows.contains(b),
    ensures
        is_unreachable(rows, a, b, range) == is_unreachable(rows, b, a, range),
{
    if !is_unreachable(rows, a, b, range) {
        let path = choose|path: Seq<SystemView>| connects(rows, path, a, b, range);
        lemma_reverse_route(rows, path, a, b, range);
    }
    if !is_unreachable(rows, b, a, range) {
        let path = choose|path: Seq<SystemView>| connects(rows, path, b, a, range);
        lemma_reverse_route(rows, path, b, a, range);
    }
}

/// Idempotent routing: two plans for the same request on the same table are
/// the same plan, route for route and cost for cost.
pub proof fn lemma_plans_agree(
    rows: Seq<SystemView>,
    start: SystemView,
    end: SystemView,
    range: int,
    one: Option<(Vec<System>, u64)>,
    other: Option<(Vec<System>, u64)>,
)
    requires
        is_plan(rows, start, end, range, one),
        is_plan(rows, start, end, range, other),
    ensures
        match (one, other) {
            (Some((p, c)), Some((q, d))) => views(p@) == views(q@) && c == d,
            (None, None) => true,
            _ => false,
        },
{
}

/// Self-route: the plan from a stored system to itself is that system alone,
/// at no cost, whatever the range.
pub proof fn lemma_plan_to_self(
    rows: Seq<SystemView>,
    system: SystemView,
    range: int,
    plan: Option<(Vec<System>, u64)>,
)
    requires
        rows.contains(system),
        is_plan(rows, system, system, range, plan),
    ensures
        match plan {
            Some((path, cost)) => views(path@) == seq![system] && cost == 0,
            None => false,
        },
{
    match plan {
        Some((path, cost)) => {
            lemma_route_to_self(rows, views(path@), system, range);
        },
        None => {
            lemma_route_excludes_unreachable(rows, seq![system], system, system, range);
        },
    }
}

/// Symmetry up to tie-breaking: the plan from `a` to `b` and the plan from `b`
/// to `a` have routes of the same length and the same cost, or both find no
/// route.
pub proof fn lemma_plans_are_symmetric(
    rows: Seq<SystemView>,
    a: SystemView,
    b: SystemView,
    range: int,
    there: Option<(Vec<System>, u64)>,
    back: Option<(Vec<System>, u64)>,
)
    requires
        unique_addresses(rows),
        rows.contains(a),
        rows.contains(b),
        is_plan(rows, a, b, range, there),
        is_plan(rows, b, a, range, back),
    ensures
        match (there, back) {
            (Some((p, c)), Some((q, d))) => p@.len() == q@.len() && c == d,
            (None, None) => true,
            _ => false,
        },
{
    lemma_unreachable_is_symmetric(rows, a, b, range);
    match (there, back) {
        (Some((p, c)), Some((q, d))) => {
            lemma_shortest_is_symmetric(rows, views(p@), views(q@), a, b, range);
        },
        (Some((p, c)), None) => {
            lemma_route_excludes_unreachable(rows, views(p@), a, b, range);
        },
        (None, Some((q, d))) => {
            lemma_route_excludes_unreachable(rows, views(q@), b, a, range);
        },
        (None, None) => {},
    }
}

/// Path validity and optimality: the route of a plan stays in the table,
/// every one of its jumps is within range, its cost counts its jumps, and no
/// route between the two systems has fewer.
pub proof fn lemma_plan_is_valid_and_optimal(
    rows: Seq<SystemView>,
    start: SystemView,
    end: SystemView,
    range: int,
    path: Vec<System>,
    cost: u64,
)
    requires
        is_plan(rows, start, end, range, Some((path, cost))),
    ensures
        forall|i: int| 0 <= i < path@.len() ==> rows.contains(#[trigger] views(path@)[i]),
        forall|i: int|
            0 <= i < path@.len() - 1 ==> (#[trigger] views(path@)[i]).position.reaches(
                views(path@)[i + 1].position,
                range,
            ),
        cost == path@.len() - 1,
        forall|other: Seq<SystemView>| #[trigger]
            connects(rows, other, start, end, range) ==> cost <= other.len() - 1,
{
}

impl System {
    /// The systems that one jump of length `range` can reach from here, each
    /// paired with the cost of that jump, which is 1: the planner counts
    /// jumps, not distance.
    pub fn successors(&self, db: &Database, range: u32) -> (next: Vec<(System, u128)>)
        ensures
            next@.len() == rows_within(db@, self.position, range as int).len(),
            forall|i: int|
                0 <= i < next@.len() ==> (#[trigger] next@[i]).0@ == rows_within(
                    db@,
                    self.position,
                    range as int,
                )[i] && next@[i].1 == 1,
    {
        let n = db.len();
        let mut next: Vec<(System, u128)> = Vec::new();
        let mut i: usize = 0;
        proof {
            lemma_rows_within_empty(self.position, range as int);
            assert(db@.take(0) =~= Seq::<SystemView>::empty());
        }
        while i < n
            invariant
                n == db@.len(),
                i <= n,
                next@.len() == rows_within(db@.take(i as int), self.position, range as int).len(),
                forall|j: int|
                    0 <= j < next@.len() ==> (#[trigger] next@[j]).0@ == rows_within(
                        db@.take(i as int),
                        self.position,
                        range as int,
                    )[j] && next@[j].1 == 1,
            decreases n - i,
        {
            let candidate = db.row(i);
            proof {
                lemma_rows_within_step(db@, i as int, self.position, range as int);
            }
            if self.position.is_within(&candidate.position, range) {
                next.push((candidate.clone(), 1));
            }
            i += 1;
        }
        assert(db@.take(n as int) =~= db@);
        next
    }

    /// A lower bound on the number of jumps of length `range` from here to
    /// `end`: the distance divided by the range, rounded up.
    pub fn estimate(&self, end: &System, range: u32) -> (k: u128)
        requires
            range > 0,
        ensures
            is_hop_estimate(
                self.position.distance_squared_to(end.position),
                range as int,
                k as int,
            ),
    {
        self.position.jumps_to(&end.position, range) as u128
    }

    /// Plans a route with the fewest jumps from this system to `end`, where
    /// one jump covers at most `range`.
    ///
    /// Returns the systems along the route, this one first and `end` last,
    /// with the number of jumps; for `end` itself that is the route of one
    /// system and no jumps. Returns `None` exactly when no chain of jumps
    /// leads from here to `end`. Never fails.
    pub fn route_to(&self, db: &Database, end: &System, range: u32) -> (planned: Result<
        Option<(Vec<System>, u64)>,
        Error,
    >)
        requires
            db@.contains(self@),
            db@.contains(end@),
            range > 0,
        ensures
            match planned {
                Ok(plan) => is_plan(db@, self@, end@, range as int, plan),
                Err(_) => false,
            },
    {
        proof {
            use_type_invariant(db);
            lemma_estimate_never_overestimates(db@, end@, range as int);
        }
        match astar(db, self, end, range) {
            Some((path, cost)) => {
                proof {
                    lemma_route_ends_at_goal(db@, views(path@), self@, end@, range as int);
                }
                assert(cost == path.len() - 1);
                Ok(Some((path, cost as u64)))
            },
            None => Ok(None),
        }
    }
}

impl Database {
    /// Plans a route with the fewest jumps between two systems given by
    /// name, in any mix of upper and lower case. Each name stands for the
    /// first stored system that bears it.
    ///
    /// Fails with [`Error::NotFound`] exactly when one of the names is not
    /// stored. Otherwise returns what [`System::route_to`] returns for the two
    /// systems.
    pub fn route(&self, start: &str, end: &str, range: u32) -> (planned: Result<
        Option<(Vec<System>, u64)>,
        Error,
    >)
        requires
            range > 0,
        ensures
            match planned {
                Ok(plan) => exists|i: int, j: int|
                    {
                        &&& is_first_named(self@, uppercase(start@), i)
                        &&& is_first_named(self@, uppercase(end@), j)
                        &&& is_plan(self@, self@[i], self@[j], range as int, plan)
                    },
                Err(e) => {
                    &&& e == Error::NotFound
                    &&& is_unnamed(self@, uppercase(start@)) || is_unnamed(self@, uppercase(end@))
                },
            },
    {
        let from = match System::fetch_by_name(self, start) {
            Ok(system) => system,
            Err(e) => {
                return Err(e);
            },
        };
        let to = match System::fetch_by_name(self, end) {
            Ok(system) => system,
            Err(e) => {
                return Err(e);
            },
        };
        from.route_to(self, &to, range)
    }
}

/// `pathfinding::directed::astar::astar`, searching from `start` for the
/// system with the address of `end`. Its successor function is
/// [`System::successors`], its heuristic [`System::estimate`], and it stops at
/// the first system that equals `end`, which is to say has its address.
///
/// The crate documents that the search returns a shortest path from the start
/// to a node that meets the goal test, with its total cost, provided the
/// heuristic never exceeds the real remaining cost, and `None` if there is no
/// path. Here every jump costs 1, so the cost is the number of jumps. Among
/// tied paths the search picks one by the order of its own queue, which the
/// arguments fix; [`searched`] names that pick. The graph is finite, so the
/// search ends. It adds costs and estimates in 128 bits, where no sum of a
/// jump count and an estimate can overflow.
#[verifier::external_body]
fn astar(db: &Database, start: &System, end: &System, range: u32) -> (found: Option<
    (Vec<System>, u128),
>)
    requires
        unique_addresses(db@),
        db@.contains(start@),
        db@.contains(end@),
        range > 0,
        never_overestimates(db@, end@, range as int),
    ensures
        match found {
            Some((path, cost)) => {
                &&& is_shortest(db@, views(path@), start@, end@, range as int)
                &&& cost == path@.len() - 1
                &&& searched(db@, start@, end@, range as int) == Some(views(path@))
            },
            None => {
                &&& is_unreachable(db@, start@, end@, range as int)
                &&& searched(db@, start@, end@, range as int) is None
            },
        },
{
    pathfinding::directed::astar::astar(
        start,
        |s: &System| s.successors(db, range),
        |s: &System| s.estimate(end, range),
        |s: &System| s.eq(end),
    )
}

} // verus!
