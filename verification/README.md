# lcb_core

A battle engine for the turn-based fights of *Limbus Company*, written in
Verus: every executable function in `src/` carries a `requires`/`ensures`
contract that Verus proves.

## Layout

- `src/` — the verified library.
  - `rng`, `dice`, `hash`, `text`, `keyed`, `order`: the replayable RNG
    (xoshiro256** seeded by splitmix64), preset coin flips, FNV-1a hashing,
    text helpers and a sorted text-keyed map.
  - `state`, `ids`, `library`, `scripts`, `setup`: units, statuses, Stagger
    lines, skill decks and panels, content records and encounter scripts.
  - `clauses`: the clause engine (gates, limits and the modelled kinds).
  - `hit`: one Coin landing on its target, Coin Reuse and retargeting.
  - `clash`: what a Clash's outcome does to the unit that fought it.
  - `enemy_unit`: an enemy's battle unit from its record and script.
  - `turn`, `turn_open`, `panel`, `allowance`: opening and ending a turn
    (queued statuses, Speed rolls, extra Skill Slots, panel refills,
    per-turn counters, Sanity states, Turn End upkeep, victory check).
  - `actions`, `choices`, `aim`, `allies`, `enemy_turn`, `affinity`: what a
    player may submit, legal action lists, enemy targeting and rotations.
  - `battle`, `toss`, `power`, `damage`, `upkeep`, `time_passives`,
    `effects`, `units`: coins, Clash power, E.G.O costs, status upkeep, the
    Imago's states of time, and the conditions of skill clauses.
  - `replay`: recorded turns and the check of a re-simulation.
- `tests/` — tests of the library on concrete values.
- `app/` — the parts that are not verified: the floating-point damage
  formula, JSON records with serde, and content loading.

Not in the library: the Clash loop, one-sided attacks, Guard, Evade and
Counter skills, the per-phase clause lists (Skills, statuses, passives,
Panic Types), encounter building for Sinners and the simulator driver.
The clause engine (`clauses`) applies the clause kinds it models and
leaves a note for every other one.  One Coin's hit (`hit`) lands the
damage that the damage formula gave, goes through Rupture, the Coin's
"[On Hit]" clauses, the Stagger check and the "[On Kill]" clauses.

Laws of the library (a Clash key is symmetric, a per-turn limited clause
applies at most its limit, statuses never go negative, lower HP never
crosses fewer Stagger lines, the RNG's draw count counts its calls, …) are
public proof functions next to the functions they speak of.
