use framework_bench::config::{
    load_driver_args, output_dir, progress_line, record_path, server_argument, server_program, table_path,
    LoadLevel, Target,
};
use framework_bench::sequencer::{action, advance, Action, FatalError, Outcome, Stage};

fn actix() -> Target {
    Target { name: "actix".to_string(), port: 8000, binary: "actix".to_string(), url: "https://actix.rs".to_string() }
}

const LEVEL: LoadLevel = LoadLevel { concurrency: 100, threads: 1, duration: 30 };

#[test]
fn directory_failure_kills_server_before_exit() {
    let s = advance(Stage::Spawn, Outcome::Succeeded, 4);
    assert_eq!(action(s), Action::CreateOutputDir);
    let s = advance(s, Outcome::Failed, 4);
    assert_eq!(s, Stage::Cleanup(FatalError::Io));
    assert_eq!(action(s), Action::KillServer);
    let s = advance(s, Outcome::Succeeded, 4);
    assert_eq!(action(s), Action::Exit(FatalError::Io));
}

#[test]
fn spawn_failure_exits_without_kill() {
    let s = advance(Stage::Spawn, Outcome::Failed, 4);
    assert_eq!(action(s), Action::Exit(FatalError::Spawn));
}

#[test]
fn write_failure_kills_server() {
    let s = advance(Stage::Persist(2), Outcome::Failed, 4);
    assert_eq!(action(s), Action::KillServer);
    assert_eq!(advance(s, Outcome::Failed, 4), Stage::Failed(FatalError::Io));
}

#[test]
fn kill_failure_is_fatal() {
    assert_eq!(advance(Stage::Stop, Outcome::Failed, 4), Stage::Failed(FatalError::Termination));
}

#[test]
fn successful_run_visits_every_level() {
    let mut s = Stage::Spawn;
    let mut actions = Vec::new();
    while s != Stage::Done {
        actions.push(action(s));
        s = advance(s, Outcome::Succeeded, 2);
    }
    actions.push(action(s));
    assert_eq!(
        actions,
        vec![
            Action::SpawnServer,
            Action::CreateOutputDir,
            Action::WarmUp(0),
            Action::RunLoad(0),
            Action::WriteRecord(0),
            Action::CoolDown,
            Action::WarmUp(1),
            Action::RunLoad(1),
            Action::WriteRecord(1),
            Action::CoolDown,
            Action::KillServer,
            Action::Finish,
        ]
    );
}

#[test]
fn paths_and_arguments() {
    let t = actix();
    assert_eq!(server_program(&t), "target/release/actix");
    assert_eq!(server_argument(&t), "8000");
    assert_eq!(output_dir(&t), "perf/actix");
    assert_eq!(record_path(&t, LEVEL), "perf/actix/100.txt");
    assert_eq!(table_path(LEVEL), "results-100.md");
    assert_eq!(load_driver_args(&t, LEVEL), vec!["-d30s", "-t1", "-c100", "http://localhost:8000"]);
    assert_eq!(progress_line(&t, LEVEL), "\n[actix] - Concurrency (100) | Threads (1) | Duration (30)");
}
