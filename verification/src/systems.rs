//! Star systems: the vertices of the routing graph.

use vstd::prelude::*;
use crate::error::Error;
use crate::geometry::{Coordinate, is_ceil_root};
use crate::store::{Database, holds, is_first_named, is_unnamed, rows_within, upserted};

pub use crate::jumps::{Cost, Fuel, Jump, Route};

verus! {

/// How well a system is policed.
#[derive(Clone, Copy, Debug, PartialEq, Eq, Structural)]
pub enum Security {
    High,
    Medium,
    Low,
    Anarchy,
}

/// How a system is governed.
#[derive(Clone, Copy, Debug, PartialEq, Eq, Structural)]
pub enum Government {
    Anarchy,
    Communism,
    Confederacy,
    Cooperative,
    Corporate,
    Democracy,
    Dictatorship,
    Feudal,
    Patronage,
    Prison,
    PrisonColony,
    Theocracy,
    Engineer,
    Carrier,
    Megaconstruction,
}

/// The broader group a system sides with.
#[derive(Clone, Copy, Debug, PartialEq, Eq, Structural)]
pub enum Allegiance {
    Alliance,
    Empire,
    Federation,
    Guardian,
    Independent,
    PilotsFederation,
    PlayerPilots,
    Thargoid,
    FrontlineSolutions,
}

/// What a system's economy lives on.
#[derive(Clone, Copy, Debug, PartialEq, Eq, Structural)]
pub enum Economy {
    Agriculture,
    Colony,
    Extraction,
    HighTech,
    Industrial,
    Military,
    Refinery,
    Service,
    Terraforming,
    Tourism,
    Carrier,
    Prison,
    Rescue,
    Undefined,
}

/// A star system as the store holds it.
///
/// `address` is the system's identity: two values with the same address
/// denote the same system, and `==` compares nothing else. `name` is kept in
/// upper case. `position` never changes once stored. The remaining fields are
/// revised by newer telemetry, and `updated_at` is the timestamp of the
/// telemetry that last revised them.
#[derive(Debug)]
pub struct System {
    pub address: u64,
    pub name: String,
    pub position: Coordinate,
    pub population: u64,
    pub security: Option<Security>,
    pub government: Option<Government>,
    pub allegiance: Option<Allegiance>,
    pub primary_economy: Option<Economy>,
    pub secondary_economy: Option<Economy>,
    pub updated_at: i64,
}

/// The mathematical value of a [`System`]: the same fields, with the name as
/// a sequence of characters.
pub struct SystemView {
    pub address: u64,
    pub name: Seq<char>,
    pub position: Coordinate,
    pub population: u64,
    pub security: Option<Security>,
    pub government: Option<Government>,
    pub allegiance: Option<Allegiance>,
    pub primary_economy: Option<Economy>,
    pub secondary_economy: Option<Economy>,
    pub updated_at: i64,
}

impl View for System {
    type V = SystemView;

    open spec fn view(&self) -> SystemView {
        SystemView {
            address: self.address,
            name: self.name@,
            position: self.position,
            population: self.population,
            security: self.security,
            government: self.government,
            allegiance: self.allegiance,
            primary_economy: self.primary_economy,
            secondary_economy: self.secondary_economy,
            updated_at: self.updated_at,
        }
    }
}

/// The views of a sequence of systems, in the same order.
pub open spec fn views(systems: Seq<System>) -> Seq<SystemView> {
    systems.map_values(|s: System| s@)
}

impl Clone for System {
    fn clone(&self) -> (copy: System)
        ensures
            copy == *self,
    {
        System {
            address: self.address,
            name: self.name.clone(),
            position: self.position,
            population: self.population,
            security: self.security,
            government: self.government,
            allegiance: self.allegiance,
            primary_economy: self.primary_economy,
            secondary_economy: self.secondary_economy,
            updated_at: self.updated_at,
        }
    }
}

/// The upper-case form of a name, as `str::to_uppercase` computes it from the
/// Unicode case mappings.
pub uninterp spec fn uppercase(name: Seq<char>) -> Seq<char>;

/// `str::to_uppercase`: the result is the upper-case form of `name`, a
/// function of its characters alone.
#[verifier::external_body]
fn to_uppercase(name: &str) -> (upper: String)
    ensures
        upper@ == uppercase(name@),
{
    name.to_uppercase()
}

/// Name normalization: two spellings with the same upper-case form resolve
/// to the same row of the table.
pub proof fn lemma_spellings_resolve_alike(
    rows: Seq<SystemView>,
    one: Seq<char>,
    other: Seq<char>,
    i: int,
    j: int,
)
    requires
        uppercase(one) == uppercase(other),
        is_first_named(rows, uppercase(one), i),
        is_first_named(rows, uppercase(other), j),
    ensures
        i == j,
{
}

/// The row that one piece of telemetry describes: the name in upper case, a
/// missing population as zero.
pub open spec fn observation(
    address: u64,
    name: Seq<char>,
    position: Coordinate,
    population: Option<u64>,
    security: Option<Security>,
    government: Option<Government>,
    allegiance: Option<Allegiance>,
    primary_economy: Option<Economy>,
    secondary_economy: Option<Economy>,
    updated_at: i64,
) -> SystemView {
    SystemView {
        address,
        name: uppercase(name),
        position,
        population: match population {
            Some(n) => n,
            None => 0,
        },
        security,
        government,
        allegiance,
        primary_economy,
        secondary_economy,
        updated_at,
    }
}

impl System {
    /// Records one observation of a system.
    ///
    /// A system seen for the first time is stored with its name in upper
    /// case. For a system already stored, name and position stay as they are,
    /// and the mutable fields are replaced only when `updated_at` is strictly
    /// newer than the stored timestamp. Always succeeds.
    pub fn create(
        db: &mut Database,
        address: u64,
        name: &str,
        position: Coordinate,
        population: Option<u64>,
        security: Option<Security>,
        government: Option<Government>,
        allegiance: Option<Allegiance>,
        primary_economy: Option<Economy>,
        secondary_economy: Option<Economy>,
        updated_at: i64,
    ) -> (done: Result<(), Error>)
        ensures
            done is Ok,
            final(db)@ == upserted(
                old(db)@,
                observation(
                    address,
                    name@,
                    position,
                    population,
                    security,
                    government,
                    allegiance,
                    primary_economy,
                    secondary_economy,
                    updated_at,
                ),
            ),
    {
        let incoming = System {
            address,
            name: to_uppercase(name),
            position,
            population: match population {
                Some(n) => n,
                None => 0,
            },
            security,
            government,
            allegiance,
            primary_economy,
            secondary_economy,
            updated_at,
        };
        db.upsert(incoming);
        Ok(())
    }

    /// The stored system with the address `address`.
    ///
    /// Fails with [`Error::NotFound`] exactly when no row has that address.
    pub fn fetch(db: &Database, address: u64) -> (found: Result<System, Error>)
        ensures
            match found {
                Ok(system) => db@.contains(system@) && system.address == address,
                Err(e) => e == Error::NotFound && !holds(db@, address),
            },
    {
        match db.index_of(address) {
            Some(i) => Ok(db.row(i).clone()),
            None => Err(Error::NotFound),
        }
    }

    /// The first stored system whose name is the upper-case form of `name`.
    ///
    /// Fails with [`Error::NotFound`] exactly when no row has that name.
    pub fn fetch_by_name(db: &Database, name: &str) -> (found: Result<System, Error>)
        ensures
            match found {
                Ok(system) => exists|i: int|
                    is_first_named(db@, uppercase(name@), i) && db@[i] == system@,
                Err(e) => e == Error::NotFound && is_unnamed(db@, uppercase(name@)),
            },
    {
        let upper = to_uppercase(name);
        System::fetch_by_stored_name(db, upper.as_str())
    }

    /// The first stored system whose name is exactly `name`, character for
    /// character.
    ///
    /// Fails with [`Error::NotFound`] exactly when no row has that name.
    pub fn fetch_by_stored_name(db: &Database, name: &str) -> (found: Result<System, Error>)
        ensures
            match found {
                Ok(system) => exists|i: int| is_first_named(db@, name@, i) && db@[i] == system@,
                Err(e) => e == Error::NotFound && is_unnamed(db@, name@),
            },
    {
        match db.index_of_name(name) {
            Some(i) => Ok(db.row(i).clone()),
            None => Err(Error::NotFound),
        }
    }

    /// The address under which a record of a bulk dump is stored: the
    /// system address where the dump gives one; otherwise the negative of the
    /// dump's own id, as a 64-bit two's complement number, which lies far
    /// above every address the game hands out.
    pub fn dump_address(system_address: Option<u64>, id: u32) -> (address: u64)
        ensures
            address == match system_address {
                Some(a) => a as int,
                None => if id == 0 {
                    0
                } else {
                    0x1_0000_0000_0000_0000 - id
                },
            },
    {
        match system_address {
            Some(a) => a,
            None => if id == 0 {
                0
            } else {
                u64::MAX - (id as u64 - 1)
            },
        }
    }

    /// Every stored system within `range` of this one, in table order. The
    /// system itself is among them if it is stored.
    pub fn neighbors(&self, db: &Database, range: u32) -> (near: Vec<System>)
        ensures
            views(near@) == rows_within(db@, self.position, range as int),
    {
        db.within(&self.position, range)
    }

    /// The Euclidean distance to `other`, rounded up to a whole grid unit.
    pub fn distance(&self, other: &System) -> (d: u64)
        ensures
            is_ceil_root(self.position.distance_squared_to(other.position), d as int),
    {
        self.position.distance(&other.position)
    }
}

impl PartialEq for System {
    fn eq(&self, other: &System) -> (same: bool) {
        self.address == other.address
    }
}

impl Eq for System {}

/// `u64::hash` feeds the number to the hasher; nothing is claimed of it.
pub assume_specification<H: std::hash::Hasher>[ <u64 as std::hash::Hash>::hash ](
    value: &u64,
    state: &mut H,
);

impl std::hash::Hash for System {
    fn hash<H: std::hash::Hasher>(&self, state: &mut H) {
        self.address.hash(state);
    }
}

impl vstd::std_specs::cmp::PartialEqSpecImpl for System {
    open spec fn obeys_eq_spec() -> bool {
        true
    }

    open spec fn eq_spec(&self, other: &System) -> bool {
        self.address == other.address
    }
}

} // verus!
