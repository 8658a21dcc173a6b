//! Deterministic rules core of the RR6 "Butterfly of Entangled Lives"
//! combat simulator: identifiers, the replayable RNG, state hashing, unit
//! state (Sanity, statuses, Stagger, the Skill Dashboard deck), enemy script
//! lookup, Coin and Clash bookkeeping, E.G.O costs, Sin Resonance, skill
//! conditions, action submission and the Imago's states of time.

pub mod text;
pub mod ids;
pub mod rng;
pub mod dice;
pub mod hash;
pub mod keyed;
pub mod order;
pub mod scripts;
pub mod library;
pub mod battle;
pub mod effects;
pub mod allowance;
pub mod turn_open;
pub mod turn;
pub mod enemy_unit;
pub mod clauses;
pub mod hit;
pub mod clash;
pub mod actions;
pub mod choices;
pub mod panel;
pub mod aim;
pub mod allies;
pub mod upkeep;
pub mod power;
pub mod toss;
pub mod enemy_turn;
pub mod affinity;
pub mod units;
pub mod time_passives;
pub mod state;
pub mod damage;
pub mod setup;
pub mod replay;

use vstd::prelude::*;
use crate::library::LibraryError;
use crate::setup::SetupError;
use vstd::std_specs::convert::FromSpecImpl;

verus! {

/// Why the simulator refused a request.
#[derive(Debug)]
pub enum SimError {
    Library(LibraryError),
    Setup(SetupError),
    Mechanics(String),
    Rule(String),
}

impl SimError {
    /// The error as it is printed: a library or setup error as itself,
    /// the others with their kind in front.
    pub fn to_string(&self) -> (m: String)
        ensures
            m@ == match self {
                SimError::Library(LibraryError::Io(e)) => "io error: "@ + e@,
                SimError::Library(LibraryError::Parse(e)) => "parse error: "@ + e@,
                SimError::Setup(SetupError::UnknownIdentity(id)) => "unknown identity id "@ + id@,
                SimError::Setup(SetupError::UnknownEnemy(id)) => "unknown enemy id "@ + id@,
                SimError::Setup(SetupError::MissingSkill(id)) => "identity "@ + id@ + " has no usable skills"@,
                SimError::Setup(SetupError::MissingField(what)) => "missing library field: "@ + what@,
                SimError::Mechanics(m) => "mechanics: "@ + m@,
                SimError::Rule(m) => "rule: "@ + m@,
            },
    {
        match self {
            SimError::Library(e) => e.to_string(),
            SimError::Setup(e) => e.to_string(),
            SimError::Mechanics(m) => {
                let mut s = String::from_str("mechanics: ");
                s.append(m.as_str());
                s
            },
            SimError::Rule(m) => {
                let mut s = String::from_str("rule: ");
                s.append(m.as_str());
                s
            },
        }
    }
}

impl From<LibraryError> for SimError {
    fn from(value: LibraryError) -> (r: SimError) {
        SimError::Library(value)
    }
}

impl FromSpecImpl<LibraryError> for SimError {
    open spec fn obeys_from_spec() -> bool {
        true
    }

    open spec fn from_spec(v: LibraryError) -> SimError {
        SimError::Library(v)
    }
}

impl From<SetupError> for SimError {
    fn from(value: SetupError) -> (r: SimError) {
        SimError::Setup(value)
    }
}

impl FromSpecImpl<SetupError> for SimError {
    open spec fn obeys_from_spec() -> bool {
        true
    }

    open spec fn from_spec(v: SetupError) -> SimError {
        SimError::Setup(v)
    }
}

} // verus!
