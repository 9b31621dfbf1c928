//! Jumps and routes: the edges that were flown, and the ones that are planned.

use vstd::prelude::*;
use crate::systems::System;

verus! {

/// What a jump burns. These are the game's names.
#[derive(Clone, Copy, Debug, PartialEq, Eq, Structural)]
pub enum Fuel {
    /// Fleet carriers
    Tritium,
    /// Ships
    Hydrogen,
}

/// What one jump cost, in thousandths of the journal's units: light-years
/// for the distance, tonnes for the fuel.
#[derive(Clone, Copy, Debug, PartialEq, Eq, Structural)]
pub struct Cost {
    pub ty: Fuel,
    pub distance: u32,
    pub used: u32,
    pub level: u32,
}

/// One hyperspace jump, flown or planned, and the system it arrives in.
///
/// A jump is either observed from telemetry or produced by the planner;
/// `future` tells which. Jumps chain into a route through `next_jump_id`.
#[derive(Clone, Copy, Debug, PartialEq, Eq, Structural)]
pub struct Jump {
    pub id: u128,
    pub current_system_address: u64,
    /// Absent for a planned jump, and for a jump that burns no ship fuel
    pub cost: Option<Cost>,
    pub future: bool,
    pub timestamp: Option<i64>,
    pub next_jump_id: Option<u128>,
}

/// A named chain of jumps, anchored at its first jump.
#[derive(Debug)]
pub struct Route {
    pub id: i64,
    pub name: String,
    pub start_jump_id: u128,
}

impl Jump {
    /// The first jump of a planned route: it stands in `system`, has no cost
    /// and no successor yet, and is marked as planned.
    pub fn start(id: u128, system: &System, at: Option<i64>) -> (jump: Jump)
        ensures
            jump == (Jump {
                id,
                current_system_address: system.address,
                cost: None,
                future: true,
                timestamp: at,
                next_jump_id: None,
            }),
    {
        Jump {
            id,
            current_system_address: system.address,
            cost: None,
            future: true,
            timestamp: at,
            next_jump_id: None,
        }
    }

    /// A jump that the journal reports as flown: it arrived in the system
    /// with the address `address` at `timestamp`, at the cost `cost`, and is
    /// not planned.
    pub fn from_journal(id: u128, address: u64, cost: Option<Cost>, timestamp: i64) -> (jump: Jump)
        ensures
            jump == (Jump {
                id,
                current_system_address: address,
                cost,
                future: false,
                timestamp: Some(timestamp),
                next_jump_id: None,
            }),
    {
        Jump {
            id,
            current_system_address: address,
            cost,
            future: false,
            timestamp: Some(timestamp),
            next_jump_id: None,
        }
    }
}

} // verus!
