//! Replays: a seed, the fixed content ids, and the actions submitted each
//! turn, plus a hash chain that proves a re-simulation reproduced the same
//! states.

use vstd::prelude::*;
use crate::battle::Action;
use crate::state::BattleConfig;

verus! {

/// One committed turn: everything that was submitted, and the hashes it
/// produced.
#[derive(Clone, Debug)]
pub struct ReplayTurn {
    pub turn: u32,
    pub actions: Vec<Action>,
    pub state_hash: u64,
    pub transition_hash: u64,
}

#[derive(Clone, Debug)]
pub struct Replay {
    pub seed: u64,
    pub config: BattleConfig,
    pub team: Vec<String>,
    pub enemies: Vec<String>,
    pub steps: Vec<ReplayTurn>,
}

/// Why a re-simulation does not reproduce a replay.
#[derive(Clone, Copy, Debug, PartialEq, Eq, Structural)]
pub enum ReplayMismatch {
    /// The replay has a step for a battle that had already ended.
    ContinuesAfterEnd { step: usize },
    /// The state after the step hashes differently.
    StateHash { step: usize, recorded: u64, simulated: u64 },
    /// The transition of the step hashes differently.
    TransitionHash { step: usize },
}

fn owned_texts(items: &[&str]) -> (r: Vec<String>)
    ensures
        r@.len() == items@.len(),
        forall|i: int| 0 <= i < r@.len() ==> #[trigger] r@[i]@ == items@[i]@,
{
    let mut r: Vec<String> = Vec::new();
    let mut i: usize = 0;
    while i < items.len()
        invariant
            i <= items@.len(),
            r@.len() == i,
            forall|k: int| 0 <= k < i ==> #[trigger] r@[k]@ == items@[k]@,
        decreases items.len() - i,
    {
        r.push(items[i].to_owned());
        i = i + 1;
    }
    r
}

/// What checking step `index` of `steps` gives, when the battle had
/// (`finished_before`) or had not ended before it and the re-simulation
/// produced the two hashes.
pub open spec fn step_verdict(
    steps: Seq<ReplayTurn>,
    index: usize,
    finished_before: bool,
    state_hash: u64,
    transition_hash: u64,
) -> Result<(), ReplayMismatch> {
    if finished_before {
        Err(ReplayMismatch::ContinuesAfterEnd { step: index })
    } else if state_hash != steps[index as int].state_hash {
        Err(ReplayMismatch::StateHash { step: index, recorded: steps[index as int].state_hash, simulated: state_hash })
    } else if transition_hash != steps[index as int].transition_hash {
        Err(ReplayMismatch::TransitionHash { step: index })
    } else {
        Ok(())
    }
}

impl Replay {
    pub fn new(seed: u64, config: BattleConfig, team: &[&str], enemies: &[&str]) -> (r: Self)
        ensures
            r.seed == seed,
            r.config == config,
            r.team@.len() == team@.len(),
            forall|i: int| 0 <= i < team@.len() ==> #[trigger] r.team@[i]@ == team@[i]@,
            r.enemies@.len() == enemies@.len(),
            forall|i: int| 0 <= i < enemies@.len() ==> #[trigger] r.enemies@[i]@ == enemies@[i]@,
            r.steps@.len() == 0,
    {
        Replay {
            seed,
            config,
            team: owned_texts(team),
            enemies: owned_texts(enemies),
            steps: Vec::new(),
        }
    }

    /// Check one step of a re-simulation against the replay: the battle must
    /// not have ended before it, and the state and transition hashes the
    /// re-simulation produced must be the recorded ones.
    pub fn check_step(
        &self,
        index: usize,
        finished_before: bool,
        state_hash: u64,
        transition_hash: u64,
    ) -> (r: Result<(), ReplayMismatch>)
        requires
            index < self.steps@.len(),
        ensures
            r == step_verdict(self.steps@, index, finished_before, state_hash, transition_hash),
    {
        if finished_before {
            return Err(ReplayMismatch::ContinuesAfterEnd { step: index });
        }
        let step = &self.steps[index];
        if state_hash != step.state_hash {
            return Err(
                ReplayMismatch::StateHash {
                    step: index,
                    recorded: step.state_hash,
                    simulated: state_hash,
                },
            );
        }
        if transition_hash != step.transition_hash {
            return Err(ReplayMismatch::TransitionHash { step: index });
        }
        Ok(())
    }
}

/// Record a committed turn into the replay: the turn it was played on, the
/// actions, the hash of the state after it and of the transition.
pub fn record(
    replay: &mut Replay,
    turn: u32,
    actions: Vec<Action>,
    state_hash: u64,
    transition_hash: u64,
)
    ensures
        final(replay).seed == old(replay).seed,
        final(replay).config == old(replay).config,
        final(replay).team == old(replay).team,
        final(replay).enemies == old(replay).enemies,
        final(replay).steps@ == old(replay).steps@.push(
            ReplayTurn { turn, actions, state_hash, transition_hash },
        ),
{
    replay.steps.push(ReplayTurn { turn, actions, state_hash, transition_hash });
}

/// A step that `record` appended checks out, while the battle is still on,
/// against exactly the hashes it recorded, and against no other state hash.
pub proof fn recorded_step_checks_out(steps: Seq<ReplayTurn>, t: ReplayTurn, state_hash: u64, transition_hash: u64)
    requires
        steps.len() < usize::MAX,
    ensures
        step_verdict(steps.push(t), steps.len() as usize, false, state_hash, transition_hash) is Ok
            <==> state_hash == t.state_hash && transition_hash == t.transition_hash,
{
    assert(steps.push(t)[steps.len() as int] == t);
}

} // verus!
