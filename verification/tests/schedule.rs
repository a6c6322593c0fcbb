use rusty_net_sim::config::default_output_path;
use rusty_net_sim::schedule::{ring_neighbor, run, RunAction, RunSchedule};

fn drain_with(tick_count: u64, clients: usize, replay: bool) -> Vec<RunAction> {
    let mut schedule = RunSchedule::new(tick_count, clients, replay);
    let mut actions = Vec::new();
    loop {
        let action = run(&mut schedule);
        if action == RunAction::Finished {
            break;
        }
        actions.push(action);
    }
    assert!(schedule.is_finished());
    assert_eq!(run(&mut schedule), RunAction::Finished);
    actions
}

fn drain(tick_count: u64, clients: usize) -> Vec<RunAction> {
    drain_with(tick_count, clients, false)
}

#[test]
fn one_tick_with_three_clients_runs_every_phase_in_order() {
    assert_eq!(
        drain(1, 3),
        vec![
            RunAction::AdvanceWorld,
            RunAction::Broadcast { client: 0 },
            RunAction::Broadcast { client: 1 },
            RunAction::Broadcast { client: 2 },
            RunAction::StepServerTrack { client: 0 },
            RunAction::StepServerTrack { client: 1 },
            RunAction::StepServerTrack { client: 2 },
            RunAction::Publish { from: 0, to: 1 },
            RunAction::Publish { from: 1, to: 2 },
            RunAction::Publish { from: 2, to: 0 },
            RunAction::StepPeerTrackAndRecord { client: 0 },
            RunAction::StepPeerTrackAndRecord { client: 1 },
            RunAction::StepPeerTrackAndRecord { client: 2 },
            RunAction::Flush,
        ]
    );
}

#[test]
fn run_length_is_ticks_times_phases_plus_flush() {
    assert_eq!(drain(5, 8).len(), 5 * (4 * 8 + 1) + 1);
    assert_eq!(drain(3, 0), vec![RunAction::AdvanceWorld; 3].into_iter().chain([RunAction::Flush]).collect::<Vec<_>>());
    assert_eq!(drain(0, 4), vec![RunAction::Flush]);
}

#[test]
fn single_client_publishes_to_itself() {
    let actions = drain(1, 1);
    assert!(actions.contains(&RunAction::Publish { from: 0, to: 0 }));
    assert_eq!(ring_neighbor(7, 8), 0);
    assert_eq!(ring_neighbor(2, 8), 3);
}

#[test]
fn default_output_path_is_metrics_jsonl() {
    assert_eq!(default_output_path(), "metrics.jsonl");
}

#[test]
fn replay_record_ends_every_tick_when_enabled() {
    let actions = drain_with(2, 2, true);
    assert_eq!(actions.len(), 2 * (4 * 2 + 2) + 1);
    let replays: Vec<usize> = actions
        .iter()
        .enumerate()
        .filter(|(_, a)| **a == RunAction::RecordReplay)
        .map(|(i, _)| i)
        .collect();
    assert_eq!(replays, vec![9, 19]);
    assert_eq!(actions[10], RunAction::AdvanceWorld);
    assert_eq!(actions[20], RunAction::Flush);
    assert!(!drain(2, 2).contains(&RunAction::RecordReplay));
    assert_eq!(
        drain_with(1, 0, true),
        vec![RunAction::AdvanceWorld, RunAction::RecordReplay, RunAction::Flush]
    );
}
