use file_search::{
    App, Focus, PollOutcome, RevealDirective, SearchOutput, SearchScope, StartDirective, Status,
};

fn app_with_results(results: Vec<&str>) -> App {
    let mut app = App::default();
    app.results = results.into_iter().map(|s| s.to_string()).collect();
    if app.results.is_empty() {
        app.selected = None;
    } else {
        app.selected = Some(0);
    }
    app
}

#[test]
fn fresh_session_is_idle() {
    let app = App::default();
    assert!(!app.searching);
    assert!(matches!(app.status, Status::Welcome));
    assert!(matches!(app.focus, Focus::Query));
    assert!(app.results.is_empty());
    assert!(app.selected.is_none());
}

#[test]
fn empty_query_does_not_start() {
    let mut app = app_with_results(vec!["old/result.txt"]);
    app.query = "   ".to_string();
    let d = app.start_search();
    assert!(matches!(d, StartDirective::EmptyQuery));
    assert!(matches!(app.status, Status::EmptyQuery));
    assert!(!app.searching);
    assert_eq!(app.results, vec!["old/result.txt".to_string()]);
}

#[test]
fn start_with_explicit_root() {
    let mut app = App::default();
    app.query = " notes ".to_string();
    app.root = " /data ".to_string();
    let d = app.start_search();
    match d {
        StartDirective::Begin { query, roots, scope } => {
            assert_eq!(query, "notes");
            assert_eq!(roots, vec!["/data".to_string()]);
            match scope {
                SearchScope::Rooted { path } => assert_eq!(path, "/data"),
                SearchScope::WholeMachine => panic!("expected a rooted scope"),
            }
        }
        _ => panic!("expected the search to begin"),
    }
    assert!(app.searching);
    assert!(matches!(app.status, Status::SearchStarted));
    assert_eq!(app.spinner_idx, 0);
}

#[test]
fn start_without_root_searches_whole_machine() {
    let mut app = App::default();
    app.query = "q".to_string();
    let d = app.start_search();
    match d {
        StartDirective::Begin { roots, scope, .. } => {
            assert_eq!(roots, vec!["/".to_string()]);
            assert!(matches!(scope, SearchScope::WholeMachine));
        }
        _ => panic!("expected the search to begin"),
    }
}

#[test]
fn second_start_is_rejected_while_running() {
    let mut app = App::default();
    app.query = "q".to_string();
    let first = app.start_search();
    assert!(matches!(first, StartDirective::Begin { .. }));
    let second = app.start_search();
    assert!(matches!(second, StartDirective::AlreadyRunning));
    assert!(matches!(app.status, Status::SearchInProgress));
    assert!(app.searching);
}

#[test]
fn tick_outside_a_search_changes_nothing() {
    let mut app = app_with_results(vec!["r.txt"]);
    let spinner = app.spinner_idx;
    app.tick(PollOutcome::Pending);
    assert_eq!(app.spinner_idx, spinner);
    assert!(matches!(app.status, Status::Welcome));
    assert_eq!(app.results, vec!["r.txt".to_string()]);
}

#[test]
fn pending_poll_only_advances_the_spinner() {
    let mut app = App::default();
    app.query = "q".to_string();
    app.start_search();
    app.tick(PollOutcome::Pending);
    assert_eq!(app.spinner_idx, 1);
    assert!(app.searching);
    app.tick(PollOutcome::Pending);
    assert_eq!(app.spinner_idx, 2);
}

#[test]
fn delivered_result_completes_the_search() {
    let mut app = App::default();
    app.query = "hit".to_string();
    app.start_search();
    let output = SearchOutput {
        scanned: 5,
        matched: vec!["a/hit.txt".to_string(), "b/hit.txt".to_string()],
    };
    app.tick(PollOutcome::Delivered { output, scope: SearchScope::WholeMachine });
    assert!(!app.searching);
    assert_eq!(app.results, vec!["a/hit.txt".to_string(), "b/hit.txt".to_string()]);
    assert_eq!(app.selected, Some(0));
    match &app.status {
        Status::Done { matched, scanned, scope } => {
            assert_eq!(*matched, 2);
            assert_eq!(*scanned, 5);
            assert!(matches!(scope, SearchScope::WholeMachine));
        }
        _ => panic!("expected a completion status"),
    }
}

#[test]
fn delivered_empty_result_clears_selection() {
    let mut app = App::default();
    app.query = "none".to_string();
    app.start_search();
    let output = SearchOutput { scanned: 3, matched: vec![] };
    app.tick(PollOutcome::Delivered { output, scope: SearchScope::WholeMachine });
    assert!(!app.searching);
    assert!(app.results.is_empty());
    assert!(app.selected.is_none());
}

#[test]
fn disconnected_worker_reports_and_keeps_results() {
    let mut app = app_with_results(vec!["kept.txt"]);
    app.query = "q".to_string();
    let d = app.start_search();
    assert!(matches!(d, StartDirective::Begin { .. }));
    app.tick(PollOutcome::Disconnected);
    assert!(!app.searching);
    assert!(matches!(app.status, Status::Disconnected));
    assert_eq!(app.results, vec!["kept.txt".to_string()]);
    let again = app.start_search();
    assert!(matches!(again, StartDirective::Begin { .. }));
}

#[test]
fn status_line_shows_spinner_while_searching() {
    let mut app = App::default();
    app.query = "q".to_string();
    app.start_search();
    app.tick(PollOutcome::Pending);
    match app.status_line() {
        Status::Searching { spinner_idx } => assert_eq!(spinner_idx, 1),
        _ => panic!("expected the searching status"),
    }
    app.tick(PollOutcome::Disconnected);
    assert!(matches!(app.status_line(), Status::Disconnected));
}

#[test]
fn selection_moves_down_and_holds_at_the_end() {
    let mut app = app_with_results(vec!["a", "b", "c"]);
    app.select_next();
    assert_eq!(app.selected, Some(1));
    app.select_next();
    assert_eq!(app.selected, Some(2));
    app.select_next();
    assert_eq!(app.selected, Some(2));
}

#[test]
fn selection_moves_up_and_holds_at_the_start() {
    let mut app = app_with_results(vec!["a", "b"]);
    app.select_next();
    assert_eq!(app.selected, Some(1));
    app.select_prev();
    assert_eq!(app.selected, Some(0));
    app.select_prev();
    assert_eq!(app.selected, Some(0));
}

#[test]
fn selection_on_empty_list_stays_empty() {
    let mut app = app_with_results(vec![]);
    app.select_next();
    assert!(app.selected.is_none());
    app.select_prev();
    assert!(app.selected.is_none());
}

#[test]
fn focus_cycles_through_all_elements() {
    let mut app = App::default();
    assert!(matches!(app.focus, Focus::Query));
    app.cycle_focus();
    assert!(matches!(app.focus, Focus::Root));
    app.cycle_focus();
    assert!(matches!(app.focus, Focus::Results));
    app.cycle_focus();
    assert!(matches!(app.focus, Focus::Query));
}

#[test]
fn open_while_searching_is_rejected() {
    let mut app = App::default();
    app.query = "q".to_string();
    app.start_search();
    let d = app.open_selected();
    assert!(matches!(d, RevealDirective::Busy));
    assert!(matches!(app.status, Status::OpenWhileSearching));
}

#[test]
fn open_without_selection_is_rejected() {
    let mut app = app_with_results(vec![]);
    let d = app.open_selected();
    assert!(matches!(d, RevealDirective::NoSelection));
    assert!(matches!(app.status, Status::NoSelection));
}

#[test]
fn open_hands_back_the_selected_path() {
    let mut app = app_with_results(vec!["x/first.txt", "x/second.txt"]);
    app.select_next();
    let d = app.open_selected();
    match d {
        RevealDirective::Open { path } => assert_eq!(path, "x/second.txt"),
        _ => panic!("expected a path to open"),
    }
}

#[test]
fn reveal_outcome_is_recorded() {
    let mut app = app_with_results(vec!["x.txt"]);
    app.reveal_finished("x.txt".to_string(), None);
    match &app.status {
        Status::Opened { path } => assert_eq!(path, "x.txt"),
        _ => panic!("expected an opened status"),
    }
    app.reveal_finished("x.txt".to_string(), Some("not found".to_string()));
    match &app.status {
        Status::OpenFailed { detail } => assert_eq!(detail, "not found"),
        _ => panic!("expected a failure status"),
    }
}
