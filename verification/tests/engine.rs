use v8cli::engine::{
    begin_eval, eval_step_exec, observation_continues, serve_response, serve_script, EvalAction,
    EvalEvent, EvalState, PageResult, PageValue, OBSERVE_ROUNDS, POLL_ROUNDS, POLL_SETTLE_MS,
    POLL_SLEEP_MS,
};

fn result(value: Option<PageValue>) -> PageResult {
    PageResult {
        pending: false,
        ticket: None,
        error: None,
        navigate: None,
        undefined: false,
        value,
        text: "{}".to_string(),
        page_url: "https://example.com/dir/page".to_string(),
    }
}

fn evaluate_script(action: &EvalAction) -> String {
    match action {
        EvalAction::Evaluate { script } => script.clone(),
        _ => panic!("expected an evaluation"),
    }
}

fn done(action: &EvalAction) -> Result<String, String> {
    match action {
        EvalAction::Done { result } => result.clone(),
        _ => panic!("expected the end of the evaluation"),
    }
}

/// Runs a settled result through to its answer, with no recorded navigation.
fn answer_of(r: PageResult) -> Result<String, String> {
    let (state, action) = begin_eval("code");
    assert!(matches!(action, EvalAction::Evaluate { .. }));
    let (state, action) = eval_step_exec(state, EvalEvent::Evaluated(r));
    match action {
        EvalAction::ReadPendingNavigation { script } => {
            assert_eq!(script, "__v8cliTakeNav()");
            let (state, action) = eval_step_exec(state, EvalEvent::PendingNavigation(None));
            assert!(matches!(state, EvalState::Finished));
            done(&action)
        }
        other => done(&other),
    }
}

#[test]
fn evaluation_wraps_code_in_the_page_api_call() {
    let (state, action) = begin_eval("1 + \"x\"");
    assert!(matches!(state, EvalState::AwaitEval));
    assert_eq!(evaluate_script(&action), "__v8cliEval(\"1 + \\\"x\\\"\")");
    let (_, action) = begin_eval("a\tb\u{1}\\é\n");
    assert_eq!(evaluate_script(&action), "__v8cliEval(\"a\\tb\\u0001\\\\é\\n\")");
}

#[test]
fn settled_values_become_answers() {
    assert_eq!(answer_of(result(Some(PageValue::Text("hi".into())))), Ok("hi".to_string()));
    assert_eq!(answer_of(result(Some(PageValue::Json("42".into())))), Ok("42".to_string()));
    let mut u = result(Some(PageValue::Text("ignored".into())));
    u.undefined = true;
    assert_eq!(answer_of(u), Ok(String::new()));
    assert_eq!(answer_of(result(None)), Err("invalid page result: {}".to_string()));
    let mut e = result(None);
    e.error = Some("ReferenceError: x".into());
    assert_eq!(answer_of(e), Err("ReferenceError: x".to_string()));
}

#[test]
fn navigation_requests_resolve_against_the_page() {
    let mut r = result(None);
    r.navigate = Some("../other?q=1".into());
    let (state, action) = eval_step_exec(EvalState::AwaitEval, EvalEvent::Evaluated(r));
    match action {
        EvalAction::Navigate { url } => assert_eq!(url, "https://example.com/other?q=1"),
        _ => panic!("expected a navigation"),
    }
    let (_, action) = eval_step_exec(state, EvalEvent::Navigated(Ok(())));
    assert_eq!(done(&action), Ok("200".to_string()));

    let mut abs = result(None);
    abs.navigate = Some("HTTPS://Example.org".into());
    let (state, action) = eval_step_exec(EvalState::AwaitEval, EvalEvent::Evaluated(abs));
    match action {
        EvalAction::Navigate { url } => assert_eq!(url, "https://example.org/"),
        _ => panic!("expected a navigation"),
    }
    let (_, action) = eval_step_exec(state, EvalEvent::Navigated(Err("timeout".into())));
    assert_eq!(done(&action), Err("timeout".to_string()));

    let mut bad = result(None);
    bad.navigate = Some("x".into());
    bad.page_url = "about:blank".into();
    let (_, action) = eval_step_exec(EvalState::AwaitEval, EvalEvent::Evaluated(bad));
    assert!(done(&action).unwrap_err().starts_with("invalid navigation URL: "));
}

#[test]
fn recorded_navigations_are_followed() {
    let (state, _) = eval_step_exec(EvalState::AwaitEval, EvalEvent::Evaluated(result(None)));
    let (state, action) = eval_step_exec(
        state,
        EvalEvent::PendingNavigation(Some(r#"{"url":"https://example.com/next"}"#.into())),
    );
    match action {
        EvalAction::Navigate { url } => assert_eq!(url, "https://example.com/next"),
        _ => panic!("expected a navigation"),
    }
    let (_, action) = eval_step_exec(state, EvalEvent::Navigated(Ok(())));
    assert_eq!(done(&action), Ok("https://example.com/next".to_string()));

    let (state, _) = eval_step_exec(EvalState::AwaitEval, EvalEvent::Evaluated(result(None)));
    let (_, action) = eval_step_exec(
        state,
        EvalEvent::PendingNavigation(Some(r#"{"error":"POST forms are not supported"}"#.into())),
    );
    assert_eq!(done(&action), Err("POST forms are not supported".to_string()));

    let (state, _) = eval_step_exec(EvalState::AwaitEval, EvalEvent::Evaluated(result(None)));
    let (_, action) = eval_step_exec(state, EvalEvent::PendingNavigation(Some("{".into())));
    assert!(done(&action).unwrap_err().starts_with("invalid navigation: "));

    let (state, _) = eval_step_exec(
        EvalState::AwaitEval,
        EvalEvent::Evaluated(result(Some(PageValue::Text("v".into())))),
    );
    let (_, action) = eval_step_exec(state, EvalEvent::PendingNavigation(Some("{}".into())));
    assert_eq!(done(&action), Ok("v".to_string()));
}

#[test]
fn pending_promises_are_polled_then_answered() {
    let mut p = result(None);
    p.pending = true;
    p.ticket = Some(7);
    let (state, action) = eval_step_exec(EvalState::AwaitEval, EvalEvent::Evaluated(p));
    assert!(matches!(action, EvalAction::Settle { ms } if ms == POLL_SETTLE_MS));
    let (state, action) = eval_step_exec(state, EvalEvent::Settled);
    assert_eq!(evaluate_script(&action), "__v8cliTake(7)");
    let mut still = result(None);
    still.pending = true;
    let (state, action) = eval_step_exec(state, EvalEvent::Evaluated(still));
    assert!(matches!(action, EvalAction::Sleep { ms } if ms == POLL_SLEEP_MS));
    let (state, action) = eval_step_exec(state, EvalEvent::Slept);
    assert!(matches!(state, EvalState::PollSettle { ticket: 7, round: 1 }));
    assert!(matches!(action, EvalAction::Settle { .. }));
    let (state, _) = eval_step_exec(state, EvalEvent::Settled);
    let (state, action) =
        eval_step_exec(state, EvalEvent::Evaluated(result(Some(PageValue::Json("7".into())))));
    assert!(matches!(action, EvalAction::ReadPendingNavigation { .. }));
    let (_, action) = eval_step_exec(state, EvalEvent::PendingNavigation(None));
    assert_eq!(done(&action), Ok("7".to_string()));
}

#[test]
fn a_promise_that_never_settles_fails_after_the_last_round() {
    let mut p = result(None);
    p.pending = true;
    p.ticket = Some(1);
    let (mut state, _) = eval_step_exec(EvalState::AwaitEval, EvalEvent::Evaluated(p));
    let mut rounds = 0;
    loop {
        let (s, _) = eval_step_exec(state, EvalEvent::Settled);
        let mut still = result(None);
        still.pending = true;
        let (s, _) = eval_step_exec(s, EvalEvent::Evaluated(still));
        rounds += 1;
        let (s, action) = eval_step_exec(s, EvalEvent::Slept);
        if let EvalAction::Done { result } = action {
            assert_eq!(result, Err("promise still pending after 5000ms".to_string()));
            break;
        }
        state = s;
    }
    assert_eq!(rounds, POLL_ROUNDS);
}

#[test]
fn unexpected_events_end_the_evaluation() {
    let (state, action) = eval_step_exec(EvalState::AwaitEval, EvalEvent::Slept);
    assert!(matches!(state, EvalState::Finished));
    assert_eq!(done(&action), Err("unexpected engine event".to_string()));
    let (_, action) = eval_step_exec(EvalState::Finished, EvalEvent::Settled);
    assert_eq!(done(&action), Err("unexpected engine event".to_string()));
}

#[test]
fn serve_lines_and_responses() {
    assert_eq!(serve_script("   "), None);
    assert_eq!(serve_script(""), None);
    assert_eq!(serve_script(r#"{"js": "document.tree()"}"#), Some("document.tree()".to_string()));
    assert_eq!(serve_script("1 + 1"), Some("1 + 1".to_string()));
    assert_eq!(serve_script(r#"{"js": 3}"#), Some(r#"{"js": 3}"#.to_string()));
    assert_eq!(serve_response(&Ok("200".to_string())), r#"{"ok":true,"value":"200"}"#);
    assert_eq!(
        serve_response(&Err("SyntaxError: x".to_string())),
        r#"{"error":"SyntaxError: x","ok":false}"#
    );
    assert_eq!(
        serve_response(&Err("a\"b\n".to_string())),
        r#"{"error":"a\"b\n","ok":false}"#
    );
    assert_eq!(serve_response(&Ok(String::new())), r#"{"ok":true,"value":""}"#);
}

#[test]
fn observation_stops_when_the_page_holds_steady() {
    assert!(observation_continues(0, 3, 5));
    assert!(!observation_continues(0, 5, 5));
    assert!(!observation_continues(OBSERVE_ROUNDS - 1, 1, 2));
    assert!(observation_continues(OBSERVE_ROUNDS - 2, 1, 2));
}
