//! The life of one server under test, as a state machine: spawn it, make its
//! output directory, run every load level (warm up, drive load, keep the
//! record, cool down), and stop it. Every failure while the server runs is
//! followed by one attempt to kill it, then by the exit.
use vstd::prelude::*;

verus! {

/// What ends the whole run.
#[derive(Debug, Clone, Copy, PartialEq, Eq, Structural)]
pub enum FatalError {
    /// The server or the load driver could not be started.
    Spawn,
    /// A directory or a file could not be made or written.
    Io,
    /// The server could not be stopped.
    Termination,
}

/// Where the sequence stands; `usize` fields index the load levels.
#[derive(Debug, Clone, Copy, PartialEq, Eq, Structural)]
pub enum Stage {
    Spawn,
    CreateDir,
    WarmUp(usize),
    Load(usize),
    Persist(usize),
    CoolDown(usize),
    Stop,
    /// A failure came while the server ran: it is being killed.
    Cleanup(FatalError),
    Done,
    Failed(FatalError),
}

/// How the last action went.
#[derive(Debug, Clone, Copy, PartialEq, Eq, Structural)]
pub enum Outcome {
    Succeeded,
    Failed,
}

/// What the caller does next.
#[derive(Debug, Clone, Copy, PartialEq, Eq, Structural)]
pub enum Action {
    SpawnServer,
    CreateOutputDir,
    /// Log the level's progress line and sleep a second.
    WarmUp(usize),
    /// Run the load driver at this level and keep its output.
    RunLoad(usize),
    /// Write the kept output as this level's record.
    WriteRecord(usize),
    /// Sleep a second.
    CoolDown,
    KillServer,
    Finish,
    Exit(FatalError),
}

pub open spec fn action_of(s: Stage) -> Action {
    match s {
        Stage::Spawn => Action::SpawnServer,
        Stage::CreateDir => Action::CreateOutputDir,
        Stage::WarmUp(i) => Action::WarmUp(i),
        Stage::Load(i) => Action::RunLoad(i),
        Stage::Persist(i) => Action::WriteRecord(i),
        Stage::CoolDown(_) => Action::CoolDown,
        Stage::Stop => Action::KillServer,
        Stage::Cleanup(_) => Action::KillServer,
        Stage::Done => Action::Finish,
        Stage::Failed(e) => Action::Exit(e),
    }
}

/// The stage after `s`, given how its action went, with `n` load levels.
/// Sleeps do not fail; the outcome of a warm-up or a cool-down is ignored.
pub open spec fn next_stage(s: Stage, o: Outcome, n: nat) -> Stage {
    let ok = o == Outcome::Succeeded;
    match s {
        Stage::Spawn => if ok { Stage::CreateDir } else { Stage::Failed(FatalError::Spawn) },
        Stage::CreateDir => if !ok {
            Stage::Cleanup(FatalError::Io)
        } else if n == 0 {
            Stage::Stop
        } else {
            Stage::WarmUp(0)
        },
        Stage::WarmUp(i) => Stage::Load(i),
        Stage::Load(i) => if ok { Stage::Persist(i) } else { Stage::Cleanup(FatalError::Spawn) },
        Stage::Persist(i) => if ok { Stage::CoolDown(i) } else { Stage::Cleanup(FatalError::Io) },
        Stage::CoolDown(i) => if i + 1 < n { Stage::WarmUp((i + 1) as usize) } else { Stage::Stop },
        Stage::Stop => if ok { Stage::Done } else { Stage::Failed(FatalError::Termination) },
        Stage::Cleanup(e) => Stage::Failed(e),
        Stage::Done => Stage::Done,
        Stage::Failed(e) => Stage::Failed(e),
    }
}

/// The server has been spawned and not yet killed.
pub open spec fn server_running(s: Stage) -> bool {
    match s {
        Stage::CreateDir | Stage::WarmUp(_) | Stage::Load(_) | Stage::Persist(_) | Stage::CoolDown(_)
        | Stage::Stop | Stage::Cleanup(_) => true,
        _ => false,
    }
}

/// The action for stage `s`.
pub fn action(s: Stage) -> (r: Action)
    ensures
        r == action_of(s),
{
    match s {
        Stage::Spawn => Action::SpawnServer,
        Stage::CreateDir => Action::CreateOutputDir,
        Stage::WarmUp(i) => Action::WarmUp(i),
        Stage::Load(i) => Action::RunLoad(i),
        Stage::Persist(i) => Action::WriteRecord(i),
        Stage::CoolDown(_) => Action::CoolDown,
        Stage::Stop => Action::KillServer,
        Stage::Cleanup(_) => Action::KillServer,
        Stage::Done => Action::Finish,
        Stage::Failed(e) => Action::Exit(e),
    }
}

/// The stage after `s`, given how its action went, with `levels` load levels.
pub fn advance(s: Stage, o: Outcome, levels: usize) -> (r: Stage)
    ensures
        r == next_stage(s, o, levels as nat),
{
    let ok = o == Outcome::Succeeded;
    match s {
        Stage::Spawn => if ok { Stage::CreateDir } else { Stage::Failed(FatalError::Spawn) },
        Stage::CreateDir => if !ok {
            Stage::Cleanup(FatalError::Io)
        } else if levels == 0 {
            Stage::Stop
        } else {
            Stage::WarmUp(0)
        },
        Stage::WarmUp(i) => Stage::Load(i),
        Stage::Load(i) => if ok { Stage::Persist(i) } else { Stage::Cleanup(FatalError::Spawn) },
        Stage::Persist(i) => if ok { Stage::CoolDown(i) } else { Stage::Cleanup(FatalError::Io) },
        Stage::CoolDown(i) => if i < levels && i + 1 < levels { Stage::WarmUp(i + 1) } else { Stage::Stop },
        Stage::Stop => if ok { Stage::Done } else { Stage::Failed(FatalError::Termination) },
        Stage::Cleanup(e) => Stage::Failed(e),
        Stage::Done => Stage::Done,
        Stage::Failed(e) => Stage::Failed(e),
    }
}

/// A failed action while the server runs (making its directory, driving
/// load, writing a record) leads to a kill of the server, and after that
/// kill, whatever its outcome, to the exit with that failure: no server is
/// left running.
pub proof fn lemma_failure_kills_server(s: Stage, o: Outcome, n: nat)
    requires
        s == Stage::CreateDir || s is Load || s is Persist,
    ensures
        server_running(s),
        next_stage(s, Outcome::Failed, n) is Cleanup,
        action_of(next_stage(s, Outcome::Failed, n)) == Action::KillServer,
        next_stage(s, Outcome::Failed, n) matches Stage::Cleanup(e)
            && next_stage(next_stage(s, Outcome::Failed, n), o, n) == Stage::Failed(e)
            && action_of(Stage::Failed(e)) == Action::Exit(e),
{
}

/// `k` steps from `s`, every action succeeding.
pub open spec fn run_ok(s: Stage, k: nat, n: nat) -> Stage
    decreases k,
{
    if k == 0 {
        s
    } else {
        run_ok(next_stage(s, Outcome::Succeeded, n), (k - 1) as nat, n)
    }
}

proof fn lemma_run_ok_split(s: Stage, a: nat, b: nat, n: nat)
    ensures
        run_ok(s, a + b, n) == run_ok(run_ok(s, a, n), b, n),
    decreases a,
{
    if a > 0 {
        lemma_run_ok_split(next_stage(s, Outcome::Succeeded, n), (a - 1) as nat, b, n);
        assert((a + b - 1) as nat == (a - 1) as nat + b);
    }
}

proof fn lemma_run_ok_levels(i: nat, n: nat)
    requires
        i < n,
        n <= usize::MAX,
    ensures
        run_ok(Stage::Spawn, 2 + 4 * i, n) == Stage::WarmUp(i as usize),
    decreases i,
{
    if i == 0 {
        assert(run_ok(Stage::Spawn, 2, n) == run_ok(Stage::CreateDir, 1, n));
        assert(run_ok(Stage::WarmUp(0), 0, n) == Stage::WarmUp(0));
    } else {
        lemma_run_ok_levels((i - 1) as nat, n);
        lemma_run_ok_split(Stage::Spawn, 2 + 4 * (i - 1) as nat, 4, n);
        let w = Stage::WarmUp((i - 1) as usize);
        assert(run_ok(w, 4, n) == run_ok(Stage::Load((i - 1) as usize), 3, n));
        assert(run_ok(Stage::Load((i - 1) as usize), 3, n) == run_ok(Stage::Persist((i - 1) as usize), 2, n));
        assert(run_ok(Stage::Persist((i - 1) as usize), 2, n) == run_ok(Stage::CoolDown((i - 1) as usize), 1, n));
        assert(run_ok(Stage::CoolDown((i - 1) as usize), 1, n) == run_ok(Stage::WarmUp(i as usize), 0, n));
    }
}

/// When every action succeeds, the server is spawned, each of the `n` levels
/// is run in order (warm-up, load, record, cool-down), the server is
/// stopped, and the sequence finishes.
pub proof fn lemma_successful_run(n: nat)
    requires
        0 < n <= usize::MAX,
    ensures
        forall|i: nat| i < n ==> #[trigger] run_ok(Stage::Spawn, 2 + 4 * i, n) == Stage::WarmUp(i as usize),
        run_ok(Stage::Spawn, 2 + 4 * n, n) == Stage::Stop,
        run_ok(Stage::Spawn, 3 + 4 * n, n) == Stage::Done,
{
    assert forall|i: nat| i < n implies #[trigger] run_ok(Stage::Spawn, 2 + 4 * i, n) == Stage::WarmUp(i as usize) by {
        lemma_run_ok_levels(i, n);
    }
    let last = (n - 1) as nat;
    lemma_run_ok_levels(last, n);
    lemma_run_ok_split(Stage::Spawn, 2 + 4 * last, 4, n);
    let c = Stage::CoolDown(last as usize);
    assert(run_ok(Stage::WarmUp(last as usize), 4, n) == run_ok(Stage::Load(last as usize), 3, n));
    assert(run_ok(Stage::Load(last as usize), 3, n) == run_ok(Stage::Persist(last as usize), 2, n));
    assert(run_ok(Stage::Persist(last as usize), 2, n) == run_ok(c, 1, n));
    assert(run_ok(c, 1, n) == run_ok(Stage::Stop, 0, n));
    lemma_run_ok_split(Stage::Spawn, 2 + 4 * n, 1, n);
    assert(run_ok(Stage::Stop, 1, n) == run_ok(Stage::Done, 0, n));
}

} // verus!
