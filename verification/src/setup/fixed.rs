//! Default helpers for the fixed content of the plan.

use vstd::prelude::*;

verus! {

pub const TEAM: [&'static str; 7] = [
    "10110", // Lobotomy E.G.O::Solemn Lament Yi Sang
    "10414", // Lobotomy E.G.O::Faint Aroma & Solitude Ryōshū
    "10813", // Jeong's Office Rep Ishmael
    "10913", // Lobotomy E.G.O::The Sword Sharpened with Tears Rodion
    "11004", // Los Mariachis Jefe Sinclair
    "11114", // LCA Udjat Vanguard Team 3 Leader Outis
    "11214", // Lobotomy E.G.O::Lamp Gregor
];

pub const BOSS_PUPA: &'static str = "9563";
pub const BOSS_IMAGO: &'static str = "9567";
pub const ILLUSORY_PAST: &'static str = "9564";
pub const ILLUSORY_PRESENT: &'static str = "9565";
pub const ILLUSORY_FUTURE: &'static str = "9566";

} // verus!
