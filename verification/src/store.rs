//! The system store: a table of star systems keyed by address.
//!
//! The store keeps its rows in the order in which their addresses were first
//! seen. Its mathematical value is that sequence of rows; every operation says
//! what it does to it.

use vstd::prelude::*;
use crate::geometry::Coordinate;
use crate::systems::{System, SystemView, views};

verus! {

/// No two rows share an address.
pub open spec fn unique_addresses(rows: Seq<SystemView>) -> bool {
    forall|i: int, j: int|
        0 <= i < rows.len() && 0 <= j < rows.len() && i != j ==> rows[i].address != rows[j].address
}

/// Some row has the address `address`.
pub open spec fn holds(rows: Seq<SystemView>, address: u64) -> bool {
    exists|i: int| 0 <= i < rows.len() && #[trigger] rows[i].address == address
}

/// `rows[i]` is the first row named `name`.
pub open spec fn is_first_named(rows: Seq<SystemView>, name: Seq<char>, i: int) -> bool {
    &&& 0 <= i < rows.len()
    &&& rows[i].name == name
    &&& forall|j: int| 0 <= j < i ==> rows[j].name != name
}

/// No row is named `name`.
pub open spec fn is_unnamed(rows: Seq<SystemView>, name: Seq<char>) -> bool {
    forall|j: int| 0 <= j < rows.len() ==> (#[trigger] rows[j]).name != name
}

/// What a stored row becomes when telemetry `incoming` for the same system
/// arrives: strictly newer telemetry replaces the mutable fields and the
/// timestamp; anything else leaves the row as it is. Address, name and
/// position are never replaced.
pub open spec fn revised(stored: SystemView, incoming: SystemView) -> SystemView {
    if stored.updated_at < incoming.updated_at {
        SystemView {
            address: stored.address,
            name: stored.name,
            position: stored.position,
            population: incoming.population,
            security: incoming.security,
            government: incoming.government,
            allegiance: incoming.allegiance,
            primary_economy: incoming.primary_economy,
            secondary_economy: incoming.secondary_economy,
            updated_at: incoming.updated_at,
        }
    } else {
        stored
    }
}

/// The table after `incoming` has been written to it: a system not seen
/// before is appended; a known one is revised in place.
pub open spec fn upserted(rows: Seq<SystemView>, incoming: SystemView) -> Seq<SystemView> {
    if holds(rows, incoming.address) {
        rows.map_values(
            |row: SystemView|
                if row.address == incoming.address {
                    revised(row, incoming)
                } else {
                    row
                },
        )
    } else {
        rows.push(incoming)
    }
}

/// The rows that lie within `radius` of `center`, in table order.
pub open spec fn rows_within(rows: Seq<SystemView>, center: Coordinate, radius: int) -> Seq<
    SystemView,
> {
    rows.filter(|row: SystemView| center.reaches(row.position, radius))
}

/// An in-memory table of star systems.
pub struct Database {
    systems: Vec<System>,
}

impl View for Database {
    type V = Seq<SystemView>;

    closed spec fn view(&self) -> Seq<SystemView> {
        views(self.systems@)
    }
}

impl Database {
    /// The table's invariant: an address identifies one row.
    #[verifier::type_invariant]
    pub open spec fn wf(&self) -> bool {
        unique_addresses(self@)
    }

    /// An empty table.
    pub fn new() -> (db: Database)
        ensures
            db@ == Seq::<SystemView>::empty(),
    {
        let systems: Vec<System> = Vec::new();
        assert(views(systems@) =~= Seq::<SystemView>::empty());
        Database { systems }
    }

    /// The number of systems stored.
    pub fn len(&self) -> (n: usize)
        ensures
            n == self@.len(),
    {
        self.systems.len()
    }

    /// The row at index `i`, in table order.
    pub fn row(&self, i: usize) -> (system: &System)
        requires
            i < self@.len(),
        ensures
            system@ == self@[i as int],
    {
        &self.systems[i]
    }

    /// Whether `system` is stored as given: some row equals it field for
    /// field.
    pub fn contains(&self, system: &System) -> (stored: bool)
        ensures
            stored == self@.contains(system@),
    {
        proof {
            use_type_invariant(self);
        }
        match self.index_of(system.address) {
            Some(i) => {
                let row = &self.systems[i];
                let same = row.name == system.name && row.position == system.position
                    && row.population == system.population && row.security == system.security
                    && row.government == system.government && row.allegiance == system.allegiance
                    && row.primary_economy == system.primary_economy && row.secondary_economy
                    == system.secondary_economy && row.updated_at == system.updated_at;
                proof {
                    if same {
                        assert(self@[i as int] == system@);
                    } else if self@.contains(system@) {
                        let j = choose|j: int| 0 <= j < self@.len() && self@[j] == system@;
                        assert(j == i);
                    }
                }
                same
            },
            None => {
                proof {
                    if self@.contains(system@) {
                        let j = choose|j: int| 0 <= j < self@.len() && self@[j] == system@;
                        assert(self@[j].address == system.address);
                    }
                }
                false
            },
        }
    }

    /// The index of the row with the address `address`, if there is one.
    pub fn index_of(&self, address: u64) -> (found: Option<usize>)
        ensures
            match found {
                Some(i) => i < self@.len() && self@[i as int].address == address,
                None => !holds(self@, address),
            },
    {
        let n = self.systems.len();
        let mut i: usize = 0;
        while i < n
            invariant
                n == self.systems@.len(),
                i <= n,
                forall|j: int| 0 <= j < i ==> self@[j].address != address,
            decreases n - i,
        {
            if self.systems[i].address == address {
                return Some(i);
            }
            i += 1;
        }
        None
    }

    /// The index of the first row named exactly `name`, if there is one.
    pub fn index_of_name(&self, name: &str) -> (found: Option<usize>)
        ensures
            match found {
                Some(i) => is_first_named(self@, name@, i as int),
                None => is_unnamed(self@, name@),
            },
    {
        let wanted: String = name.to_owned();
        let n = self.systems.len();
        let mut i: usize = 0;
        while i < n
            invariant
                n == self.systems@.len(),
                i <= n,
                wanted@ == name@,
                forall|j: int| 0 <= j < i ==> self@[j].name != name@,
            decreases n - i,
        {
            if self.systems[i].name == wanted {
                return Some(i);
            }
            i += 1;
        }
        None
    }

    /// Writes `incoming` to the table.
    ///
    /// A system whose address is not yet stored is appended as given, its
    /// name included: [`System::create`] is the entry point that puts the name
    /// in upper case first. For a known address the stored name and position
    /// stay, and the mutable fields and the timestamp are replaced only if
    /// `incoming.updated_at` is strictly newer than the stored timestamp.
    pub fn upsert(&mut self, incoming: System)
        ensures
            final(self)@ == upserted(old(self)@, incoming@),
    {
        proof {
            use_type_invariant(&*self);
        }
        let found = self.index_of(incoming.address);
        // The rows leave the table while they are changed, so that the table
        // never holds a half-written state.
        let mut systems: Vec<System> = Vec::new();
        assert(views(systems@) =~= Seq::<SystemView>::empty());
        core::mem::swap(&mut self.systems, &mut systems);
        match found {
            Some(i) => {
                let stored = &systems[i];
                if stored.updated_at < incoming.updated_at {
                    let merged = System {
                        address: stored.address,
                        name: stored.name.clone(),
                        position: stored.position,
                        population: incoming.population,
                        security: incoming.security,
                        government: incoming.government,
                        allegiance: incoming.allegiance,
                        primary_economy: incoming.primary_economy,
                        secondary_economy: incoming.secondary_economy,
                        updated_at: incoming.updated_at,
                    };
                    systems.set(i, merged);
                }
            },
            None => {
                systems.push(incoming);
            },
        }
        assert(views(systems@) =~= upserted(old(self)@, incoming@));
        core::mem::swap(&mut self.systems, &mut systems);
    }

    /// Every stored system whose Euclidean distance to `center` is at most
    /// `radius`, in table order.
    pub fn within(&self, center: &Coordinate, radius: u32) -> (near: Vec<System>)
        ensures
            views(near@) == rows_within(self@, *center, radius as int),
    {
        let n = self.systems.len();
        let mut near: Vec<System> = Vec::new();
        let mut i: usize = 0;
        proof {
            lemma_rows_within_empty(*center, radius as int);
            assert(self@.take(0) =~= Seq::<SystemView>::empty());
            assert(views(near@) =~= Seq::<SystemView>::empty());
        }
        while i < n
            invariant
                n == self.systems@.len(),
                i <= n,
                views(near@) == rows_within(self@.take(i as int), *center, radius as int),
            decreases n - i,
        {
            let candidate = &self.systems[i];
            proof {
                lemma_rows_within_step(self@, i as int, *center, radius as int);
            }
            if center.is_within(&candidate.position, radius) {
                let ghost before = near@;
                near.push(candidate.clone());
                assert(views(near@) =~= views(before).push(candidate@));
            }
            i += 1;
        }
        assert(self@.take(n as int) =~= self@);
        near
    }
}

/// A write that is not strictly newer than the stored row changes nothing.
pub proof fn lemma_stale_write_changes_nothing(rows: Seq<SystemView>, incoming: SystemView)
    requires
        holds(rows, incoming.address),
        forall|i: int|
            0 <= i < rows.len() && rows[i].address == incoming.address
                ==> incoming.updated_at <= rows[i].updated_at,
    ensures
        upserted(rows, incoming) == rows,
{
    assert(upserted(rows, incoming) =~= rows);
}

/// Monotone upsert: after a write that took effect, an older write for the
/// same system is ignored, so the stored row still carries the mutable fields
/// and the timestamp of the first write.
///
/// The first write takes effect when the system is new to the table or its
/// stored timestamp is older than that of the write.
pub proof fn lemma_older_write_is_ignored(
    rows: Seq<SystemView>,
    first: SystemView,
    second: SystemView,
)
    requires
        unique_addresses(rows),
        first.address == second.address,
        second.updated_at < first.updated_at,
        forall|i: int|
            0 <= i < rows.len() && rows[i].address == first.address ==> rows[i].updated_at
                < first.updated_at,
    ensures
        upserted(upserted(rows, first), second) == upserted(rows, first),
        holds(upserted(rows, first), first.address),
        forall|i: int|
            #![trigger upserted(rows, first)[i]]
            0 <= i < upserted(rows, first).len() && upserted(rows, first)[i].address
                == first.address ==> {
                let row = upserted(rows, first)[i];
                &&& row.population == first.population
                &&& row.security == first.security
                &&& row.government == first.government
                &&& row.allegiance == first.allegiance
                &&& row.primary_economy == first.primary_economy
                &&& row.secondary_economy == first.secondary_economy
                &&& row.updated_at == first.updated_at
            },
{
    let once = upserted(rows, first);
    if holds(rows, first.address) {
        let i = choose|i: int| 0 <= i < rows.len() && #[trigger] rows[i].address == first.address;
        assert(once[i].address == first.address);
    } else {
        assert(once[rows.len() as int].address == first.address);
    }
    assert(holds(once, first.address));
    lemma_stale_write_changes_nothing(once, second);
}

/// An upsert keeps the addresses of the table unique.
pub proof fn lemma_upsert_keeps_addresses_unique(rows: Seq<SystemView>, incoming: SystemView)
    requires
        unique_addresses(rows),
    ensures
        unique_addresses(upserted(rows, incoming)),
{
}

/// Range correctness: a system is returned by a range query exactly when it
/// is stored and its distance to the center is at most the radius.
pub proof fn lemma_rows_within_is_exact(
    rows: Seq<SystemView>,
    center: Coordinate,
    radius: int,
    system: SystemView,
)
    ensures
        rows_within(rows, center, radius).contains(system) <==> rows.contains(system)
            && center.reaches(system.position, radius),
{
    let near = |row: SystemView| center.reaches(row.position, radius);
    let found = rows.filter(near);
    if found.contains(system) {
        let k = choose|k: int| 0 <= k < found.len() && found[k] == system;
        rows.lemma_filter_pred(near, k);
        rows.lemma_filter_contains_rev(near, system);
    }
    if rows.contains(system) && center.reaches(system.position, radius) {
        let i = choose|i: int| 0 <= i < rows.len() && rows[i] == system;
        rows.lemma_filter_contains(near, i);
    }
}

/// Nothing lies within range in an empty table.
pub proof fn lemma_rows_within_empty(center: Coordinate, radius: int)
    ensures
        rows_within(Seq::<SystemView>::empty(), center, radius) == Seq::<SystemView>::empty(),
{
    reveal(Seq::filter);
}

/// Extending the table by one row extends the range query by that row exactly
/// when it lies within range.
pub proof fn lemma_rows_within_step(rows: Seq<SystemView>, i: int, center: Coordinate, radius: int)
    requires
        0 <= i < rows.len(),
    ensures
        rows_within(rows.take(i + 1), center, radius) == if center.reaches(
            rows[i].position,
            radius,
        ) {
            rows_within(rows.take(i), center, radius).push(rows[i])
        } else {
            rows_within(rows.take(i), center, radius)
        },
{
    reveal(Seq::filter);
    assert(rows.take(i + 1).drop_last() =~= rows.take(i));
    assert(rows.take(i + 1).last() == rows[i]);
}

} // verus!
