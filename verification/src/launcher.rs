//! The launcher's polling state machine.
//!
//! Before starting the orchestration command the program waits for the
//! background daemon: it probes the daemon's status, issues one restart
//! command after every failed probe, and on the first successful probe
//! launches exactly once and is done. The probing itself, the restart and
//! the launch are outside work; the library decides, round by round, what
//! to run next, and the decision is total: every probe outcome has its
//! action.

use vstd::prelude::*;

verus! {

/// What the surrounding process must run after one probe of the daemon.
#[derive(Clone, Copy, PartialEq, Eq, Structural, Debug)]
pub enum LauncherAction {
    /// The probe failed: issue the restart command and probe again.
    Restart,
    /// The probe succeeded: print the selected path, start the
    /// orchestration command in the background, and stop polling.
    Launch,
}

/// The two-state machine: checking until the daemon answers, launched
/// afterwards. `restarts` counts the restart commands issued so far.
#[derive(Clone, Copy, PartialEq, Eq, Structural, Debug)]
pub struct Launcher {
    pub launched: bool,
    pub restarts: u64,
}

impl Launcher {
    /// A fresh run: still checking, no restart issued yet.
    pub fn new() -> (l: Launcher)
        ensures
            !l.launched,
            l.restarts == 0,
    {
        Launcher { launched: false, restarts: 0 }
    }

    /// One round: the caller probes the daemon and hands in the outcome.
    /// A failed probe asks for one restart and stays in the checking
    /// state; a successful probe asks for the launch and ends the run.
    pub fn step(&mut self, daemon_active: bool) -> (a: LauncherAction)
        requires
            !old(self).launched,
            old(self).restarts < u64::MAX,
        ensures
            daemon_active ==> a == LauncherAction::Launch && final(self).launched && final(self).restarts == old(self).restarts,
            !daemon_active ==> a == LauncherAction::Restart && !final(self).launched && final(self).restarts == old(self).restarts + 1,
    {
        if daemon_active {
            self.launched = true;
            LauncherAction::Launch
        } else {
            self.restarts = self.restarts + 1;
            LauncherAction::Restart
        }
    }
}

/// The actions one run takes for the given probe outcomes: one restart
/// per failure before the first success, then a single launch; probes
/// after the first success are never made.
pub open spec fn launcher_trace(probes: Seq<bool>) -> Seq<LauncherAction>
    decreases probes.len(),
{
    if probes.len() == 0 {
        Seq::empty()
    } else if probes[0] {
        seq![LauncherAction::Launch]
    } else {
        seq![LauncherAction::Restart] + launcher_trace(probes.drop_first())
    }
}

/// When the probe first succeeds on round `n` (so it failed on rounds
/// `0..n`), the run issues exactly `n` restarts, one per failure, and then
/// launches once: the launch is the last action, after the `n + 1`-th
/// probe. With `n == 0` this says a first successful probe leads straight
/// to the launch, with no restart at all.
pub proof fn lemma_trace_of_first_success(probes: Seq<bool>, n: int)
    requires
        0 <= n < probes.len(),
        forall|k: int| 0 <= k < n ==> !(#[trigger] probes[k]),
        probes[n],
    ensures
        launcher_trace(probes).len() == n + 1,
        forall|k: int| 0 <= k < n ==> #[trigger] launcher_trace(probes)[k]
            == LauncherAction::Restart,
        launcher_trace(probes)[n] == LauncherAction::Launch,
    decreases n,
{
    if n > 0 {
        lemma_trace_of_first_success(probes.drop_first(), n - 1);
        assert forall|k: int| 0 <= k < n implies #[trigger] launcher_trace(probes)[k]
            == LauncherAction::Restart by {
            if k > 0 {
                assert(launcher_trace(probes.drop_first())[k - 1] == LauncherAction::Restart);
            }
        }
    }
}

/// A first successful probe launches at once: no restart command is
/// issued, and the orchestration command is started exactly once.
pub proof fn lemma_immediate_launch(probes: Seq<bool>)
    requires
        probes.len() > 0,
        probes[0],
    ensures
        launcher_trace(probes) == seq![LauncherAction::Launch],
{
}

/// While every probe fails, the run only restarts: one restart per probe,
/// and no launch.
pub proof fn lemma_trace_of_no_success(probes: Seq<bool>)
    requires
        forall|k: int| 0 <= k < probes.len() ==> !(#[trigger] probes[k]),
    ensures
        launcher_trace(probes).len() == probes.len(),
        forall|k: int| 0 <= k < probes.len() ==> #[trigger] launcher_trace(probes)[k]
            == LauncherAction::Restart,
    decreases probes.len(),
{
    if probes.len() > 0 {
        lemma_trace_of_no_success(probes.drop_first());
        assert forall|k: int| 0 <= k < probes.len() implies #[trigger] launcher_trace(probes)[k]
            == LauncherAction::Restart by {
            if k > 0 {
                assert(launcher_trace(probes.drop_first())[k - 1] == LauncherAction::Restart);
            }
        }
    }
}

/// Replays a run against recorded probe outcomes and returns the actions
/// taken, exactly the trace: the probes after the first success are not
/// consumed.
pub fn launcher_actions(probes: &Vec<bool>) -> (acts: Vec<LauncherAction>)
    ensures
        acts@ == launcher_trace(probes@),
{
    let mut acts: Vec<LauncherAction> = Vec::new();
    let mut i: usize = 0;
    while i < probes.len()
        invariant
            i <= probes.len(),
            acts@.len() == i,
            forall|k: int| 0 <= k < i ==> !(#[trigger] probes@[k]),
            forall|k: int| 0 <= k < i ==> #[trigger] acts@[k] == LauncherAction::Restart,
        decreases probes.len() - i,
    {
        if probes[i] {
            acts.push(LauncherAction::Launch);
            proof {
                lemma_trace_of_first_success(probes@, i as int);
                assert(acts@ =~= launcher_trace(probes@));
            }
            return acts;
        }
        acts.push(LauncherAction::Restart);
        i = i + 1;
    }
    proof {
        lemma_trace_of_no_success(probes@);
        assert(acts@ =~= launcher_trace(probes@));
    }
    acts
}

} // verus!
