use linear_get_ticket_prs::cli::{
    orchestrator_start, orchestrator_step, OrchestratorAction, OrchestratorEvent,
    OrchestratorState,
};

#[test]
fn default_mode_starts_by_fetching_tickets() {
    let (state, action) = orchestrator_start();
    assert!(matches!(state, OrchestratorState::AwaitTickets));
    assert!(matches!(action, OrchestratorAction::FetchTickets));
}

#[test]
fn empty_lists_end_the_run() {
    let (s, a) = orchestrator_step(None, None, OrchestratorState::AwaitTickets, OrchestratorEvent::Tickets(vec![]));
    assert!(matches!((s, a), (OrchestratorState::Done, OrchestratorAction::Finish)));
    let (s, a) = orchestrator_step(None, None, OrchestratorState::AwaitPrs, OrchestratorEvent::Prs(vec![]));
    assert!(matches!((s, a), (OrchestratorState::Done, OrchestratorAction::Finish)));
    let (s, a) = orchestrator_step(Some("release/v1"), None, OrchestratorState::AwaitMerged, OrchestratorEvent::Merged(vec![]));
    assert!(matches!((s, a), (OrchestratorState::Done, OrchestratorAction::Finish)));
}

#[test]
fn tickets_then_prs_then_merged() {
    let (s, a) = orchestrator_step(None, None, OrchestratorState::AwaitTickets, OrchestratorEvent::Tickets(vec!["A-1".to_string()]));
    assert!(matches!(s, OrchestratorState::AwaitPrs));
    match a {
        OrchestratorAction::FetchPrs(t) => assert_eq!(t, vec!["A-1".to_string()]),
        other => panic!("unexpected {other:?}"),
    }
    let (s, a) = orchestrator_step(None, None, OrchestratorState::AwaitPrs, OrchestratorEvent::Prs(vec![42, 7]));
    assert!(matches!(s, OrchestratorState::AwaitMerged));
    match a {
        OrchestratorAction::FilterMerged(p) => assert_eq!(p, vec!["42".to_string(), "7".to_string()]),
        other => panic!("unexpected {other:?}"),
    }
}

#[test]
fn given_release_branch_runs_the_analysis() {
    let (s, a) = orchestrator_step(Some("release/v2"), Some("o/r"), OrchestratorState::AwaitMerged, OrchestratorEvent::Merged(vec![3, 10]));
    assert!(matches!(s, OrchestratorState::Done));
    match a {
        OrchestratorAction::RunMissing(lines, branch) => {
            assert_eq!(lines, vec!["3".to_string(), "10".to_string()]);
            assert_eq!(branch, Some("release/v2".to_string()));
        }
        other => panic!("unexpected {other:?}"),
    }
}

#[test]
fn without_branch_the_current_branch_decides() {
    let (s, a) = orchestrator_step(None, Some("o/r"), OrchestratorState::AwaitMerged, OrchestratorEvent::Merged(vec![5]));
    assert!(matches!(a, OrchestratorAction::CheckReleaseBranch));
    assert!(matches!(s, OrchestratorState::AwaitBranchCheck(_)));

    let (s2, a2) = orchestrator_step(None, Some("o/r"), s, OrchestratorEvent::OnReleaseBranch(true));
    assert!(matches!(s2, OrchestratorState::Done));
    match a2 {
        OrchestratorAction::RunMissing(lines, branch) => {
            assert_eq!(lines, vec!["5".to_string()]);
            assert_eq!(branch, None);
        }
        other => panic!("unexpected {other:?}"),
    }
}

#[test]
fn off_release_branch_prints_urls_or_numbers() {
    let (_, a) = orchestrator_step(None, Some("acme/widgets"), OrchestratorState::AwaitBranchCheck(vec![12, 34]), OrchestratorEvent::OnReleaseBranch(false));
    match a {
        OrchestratorAction::Print(lines) => assert_eq!(
            lines,
            vec![
                "https://github.com/acme/widgets/pull/12".to_string(),
                "https://github.com/acme/widgets/pull/34".to_string()
            ]
        ),
        other => panic!("unexpected {other:?}"),
    }
    let (_, a) = orchestrator_step(None, None, OrchestratorState::AwaitBranchCheck(vec![12]), OrchestratorEvent::OnReleaseBranch(false));
    match a {
        OrchestratorAction::Print(lines) => assert_eq!(lines, vec!["12".to_string()]),
        other => panic!("unexpected {other:?}"),
    }
}

#[test]
fn unexpected_event_ends_the_run() {
    let (s, a) = orchestrator_step(None, None, OrchestratorState::AwaitTickets, OrchestratorEvent::Prs(vec![1]));
    assert!(matches!((s, a), (OrchestratorState::Done, OrchestratorAction::Finish)));
    let (s, a) = orchestrator_step(None, None, OrchestratorState::Done, OrchestratorEvent::Tickets(vec!["A".to_string()]));
    assert!(matches!((s, a), (OrchestratorState::Done, OrchestratorAction::Finish)));
}
