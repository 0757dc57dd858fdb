//! The decisions of the page engine: how the result of evaluating script in
//! a page is turned into an answer, waiting for promises and following
//! navigations the script asked for; and the JSON lines of the serve protocol.
use vstd::prelude::*;
use crate::text::{chars_of, decimal, push_decimal, push_str, string_from_chars, trim, trim_chars};
use crate::urls::{result_view, joined_url, opt_view, parsed_url_serialization, url_join, url_serialization};

verus! {

/// What the page returned for a script, as the engine reads it.
pub struct PageResult {
    /// The result has a `pending` field.
    pub pending: bool,
    /// The `pending` field as an unsigned integer: the ticket of a promise
    /// that has not settled yet.
    pub ticket: Option<u64>,
    /// The `error` field, when it is a string.
    pub error: Option<String>,
    /// The `navigate` field, when it is a string.
    pub navigate: Option<String>,
    /// The `undefined` field is `true`.
    pub undefined: bool,
    /// The `value` field.
    pub value: Option<PageValue>,
    /// The whole result as JSON text.
    pub text: String,
    /// The URL of the page when the result was read.
    pub page_url: String,
}

/// The `value` of a page result: a string, or any other JSON value as text.
pub enum PageValue {
    Text(String),
    Json(String),
}

/// The view of a `PageValue`.
pub enum PageValueModel {
    Text(Seq<char>),
    Json(Seq<char>),
}

impl View for PageValue {
    type V = PageValueModel;

    open spec fn view(&self) -> PageValueModel {
        match self {
            PageValue::Text(s) => PageValueModel::Text(s@),
            PageValue::Json(s) => PageValueModel::Json(s@),
        }
    }
}

/// The view of a `PageResult`.
pub struct PageResultModel {
    pub pending: bool,
    pub ticket: Option<u64>,
    pub error: Option<Seq<char>>,
    pub navigate: Option<Seq<char>>,
    pub undefined: bool,
    pub value: Option<PageValueModel>,
    pub text: Seq<char>,
    pub page_url: Seq<char>,
}

impl View for PageResult {
    type V = PageResultModel;

    open spec fn view(&self) -> PageResultModel {
        PageResultModel {
            pending: self.pending,
            ticket: self.ticket,
            error: opt_view(self.error),
            navigate: opt_view(self.navigate),
            undefined: self.undefined,
            value: match self.value {
                Some(v) => Some(v@),
                None => None,
            },
            text: self.text@,
            page_url: self.page_url@,
        }
    }
}

/// What the engine does next.
pub enum EvalAction {
    /// Evaluate `script` in the page and report `Evaluated`.
    Evaluate { script: String },
    /// Let the page run for `ms` milliseconds and report `Settled`.
    Settle { ms: u64 },
    /// Wait `ms` milliseconds and report `Slept`.
    Sleep { ms: u64 },
    /// Evaluate `script`, a call that hands over a navigation the page asked
    /// for, and report `PendingNavigation` with the string it returned.
    ReadPendingNavigation { script: String },
    /// Navigate to `url` and report `Navigated`.
    Navigate { url: String },
    /// The evaluation is over, with this answer.
    Done { result: Result<String, String> },
}

/// What the engine reports of the last action.
pub enum EvalEvent {
    Evaluated(PageResult),
    Settled,
    Slept,
    PendingNavigation(Option<String>),
    Navigated(Result<(), String>),
}

/// Where an evaluation stands.
pub enum EvalState {
    /// The script was sent; its result is awaited.
    AwaitEval,
    /// Polling promise `ticket`: the page is settling before round `round`.
    PollSettle { ticket: u64, round: u64 },
    /// Polling promise `ticket`: the result of round `round` is awaited.
    AwaitTake { ticket: u64, round: u64 },
    /// Polling promise `ticket`: waiting after round `round` left it pending.
    PollSleep { ticket: u64, round: u64 },
    /// The page is asked for a navigation it recorded; `result` is the
    /// script's result.
    AwaitPendingNav { result: PageResult },
    /// Navigating; `answer` is what the evaluation answers when it succeeds.
    AwaitNav { answer: String },
    /// The evaluation is over.
    Finished,
}

/// The view of an `EvalAction`.
pub enum EvalActionModel {
    Evaluate { script: Seq<char> },
    Settle { ms: u64 },
    Sleep { ms: u64 },
    ReadPendingNavigation { script: Seq<char> },
    Navigate { url: Seq<char> },
    Done { result: Result<Seq<char>, Seq<char>> },
}

/// The view of an `EvalEvent`.
pub enum EvalEventModel {
    Evaluated(PageResultModel),
    Settled,
    Slept,
    PendingNavigation(Option<Seq<char>>),
    Navigated(Result<(), Seq<char>>),
}

/// The view of an `EvalState`.
pub enum EvalStateModel {
    AwaitEval,
    PollSettle { ticket: u64, round: u64 },
    AwaitTake { ticket: u64, round: u64 },
    PollSleep { ticket: u64, round: u64 },
    AwaitPendingNav { result: PageResultModel },
    AwaitNav { answer: Seq<char> },
    Finished,
}

impl View for EvalAction {
    type V = EvalActionModel;

    open spec fn view(&self) -> EvalActionModel {
        match self {
            EvalAction::Evaluate { script } => EvalActionModel::Evaluate { script: script@ },
            EvalAction::Settle { ms } => EvalActionModel::Settle { ms: *ms },
            EvalAction::Sleep { ms } => EvalActionModel::Sleep { ms: *ms },
            EvalAction::ReadPendingNavigation { script } => EvalActionModel::ReadPendingNavigation {
                script: script@,
            },
            EvalAction::Navigate { url } => EvalActionModel::Navigate { url: url@ },
            EvalAction::Done { result } => EvalActionModel::Done { result: result_view(*result) },
        }
    }
}

impl View for EvalEvent {
    type V = EvalEventModel;

    open spec fn view(&self) -> EvalEventModel {
        match self {
            EvalEvent::Evaluated(r) => EvalEventModel::Evaluated(r@),
            EvalEvent::Settled => EvalEventModel::Settled,
            EvalEvent::Slept => EvalEventModel::Slept,
            EvalEvent::PendingNavigation(p) => EvalEventModel::PendingNavigation(opt_view(*p)),
            EvalEvent::Navigated(r) => EvalEventModel::Navigated(
                match r {
                    Ok(()) => Ok(()),
                    Err(e) => Err(e@),
                },
            ),
        }
    }
}

impl View for EvalState {
    type V = EvalStateModel;

    open spec fn view(&self) -> EvalStateModel {
        match self {
            EvalState::AwaitEval => EvalStateModel::AwaitEval,
            EvalState::PollSettle { ticket, round } => EvalStateModel::PollSettle {
                ticket: *ticket,
                round: *round,
            },
            EvalState::AwaitTake { ticket, round } => EvalStateModel::AwaitTake {
                ticket: *ticket,
                round: *round,
            },
            EvalState::PollSleep { ticket, round } => EvalStateModel::PollSleep {
                ticket: *ticket,
                round: *round,
            },
            EvalState::AwaitPendingNav { result } => EvalStateModel::AwaitPendingNav {
                result: result@,
            },
            EvalState::AwaitNav { answer } => EvalStateModel::AwaitNav { answer: answer@ },
            EvalState::Finished => EvalStateModel::Finished,
        }
    }
}

/// Rounds of polling a pending promise before giving up.
pub const POLL_ROUNDS: u64 = 20;

/// Milliseconds the page settles before each poll.
pub const POLL_SETTLE_MS: u64 = 500;

/// Milliseconds waited after a poll that found the promise still pending.
pub const POLL_SLEEP_MS: u64 = 250;

/// The lowercase hexadecimal digit of `d` (below 16).
pub open spec fn hex_digit(d: u32) -> char {
    if d < 10 {
        (('0' as u32) + d) as char
    } else {
        (('a' as u32) + d - 10) as char
    }
}

/// How `c` is written inside a JSON string: `\"` and `\\` for the quote and
/// the backslash, the short escapes of backspace, tab, line feed, form feed
/// and carriage return, `\u00` and two lowercase hexadecimal digits for the
/// other characters below U+0020, and `c` itself otherwise.
pub open spec fn json_escape(c: char) -> Seq<char> {
    let u = c as u32;
    if c == '"' {
        seq!['\\', '"']
    } else if c == '\\' {
        seq!['\\', '\\']
    } else if u == 0x08 {
        seq!['\\', 'b']
    } else if u == 0x09 {
        seq!['\\', 't']
    } else if u == 0x0a {
        seq!['\\', 'n']
    } else if u == 0x0c {
        seq!['\\', 'f']
    } else if u == 0x0d {
        seq!['\\', 'r']
    } else if u < 0x20 {
        seq!['\\', 'u', '0', '0', hex_digit(u / 16), hex_digit(u % 16)]
    } else {
        seq![c]
    }
}

/// The characters of `s`, each written as `json_escape` says.
pub open spec fn json_escaped(s: Seq<char>) -> Seq<char>
    decreases s.len(),
{
    if s.len() == 0 {
        seq![]
    } else {
        json_escaped(s.drop_last()) + json_escape(s.last())
    }
}

/// The JSON string literal holding `s`.
pub open spec fn json_quoted(s: Seq<char>) -> Seq<char> {
    seq!['"'] + json_escaped(s) + seq!['"']
}

/// Writes `serde_json::Value::String(s)` with `to_string` (the compact
/// formatter). The contract claims that the text is `s` quoted and escaped
/// as `json_quoted` states, which is what the formatter's escape table does.
#[verifier::external_body]
pub(crate) fn json_string(s: &str) -> (r: String)
    ensures
        r@ == json_quoted(s@),
{
    serde_json::Value::String(s.to_string()).to_string()
}

/// The script that evaluates `code` through the page API.
pub open spec fn eval_script(code: Seq<char>) -> Seq<char> {
    "__v8cliEval("@ + json_quoted(code) + ")"@
}

/// The script that takes the outcome of promise `ticket`.
pub open spec fn take_script(ticket: u64) -> Seq<char> {
    "__v8cliTake("@ + decimal(ticket as nat) + ")"@
}

/// The script that hands over a navigation the page recorded.
pub open spec fn take_nav_script() -> Seq<char> {
    "__v8cliTakeNav()"@
}

/// The first action of evaluating `code`, and the state it leaves.
pub fn begin_eval(code: &str) -> (r: (EvalState, EvalAction))
    ensures
        r.0@ == EvalStateModel::AwaitEval,
        r.1@ == (EvalActionModel::Evaluate { script: eval_script(code@) }),
{
    let mut s = String::from_str("__v8cliEval(");
    let q = json_string(code);
    s.append(q.as_str());
    s.append(")");
    (EvalState::AwaitEval, EvalAction::Evaluate { script: s })
}

fn take_call(ticket: u64) -> (s: String)
    ensures
        s@ == take_script(ticket),
{
    let mut v: Vec<char> = Vec::new();
    push_str(&mut v, "__v8cliTake(");
    push_decimal(ticket, &mut v);
    push_str(&mut v, ")");
    string_from_chars(v.as_slice())
}

/// Where a navigation the script asked for leads: `target` as a URL, else
/// `target` resolved against the page's URL.
pub open spec fn navigation_target(target: Seq<char>, page_url: Seq<char>) -> Result<
    Seq<char>,
    Seq<char>,
> {
    match parsed_url_serialization(target) {
        Some(u) => Ok(u),
        None => match joined_url(page_url, target) {
            Ok(u) => Ok(u),
            Err(e) => Err("invalid navigation URL: "@ + e),
        },
    }
}

fn navigation_target_exec(target: &str, page_url: &str) -> (r: Result<String, String>)
    ensures
        result_view(r) == navigation_target(target@, page_url@),
{
    match url_serialization(target) {
        Some(u) => Ok(u),
        None => match url_join(page_url, target) {
            Ok(u) => Ok(u),
            Err(e) => {
                let mut m = String::from_str("invalid navigation URL: ");
                m.append(e.as_str());
                Err(m)
            },
        },
    }
}

/// The answer a settled result gives: empty for `undefined`, the string
/// value, any other value as JSON text.
pub open spec fn final_answer(r: PageResultModel) -> Result<Seq<char>, Seq<char>> {
    if r.undefined {
        Ok(seq![])
    } else {
        match r.value {
            Some(PageValueModel::Text(s)) => Ok(s),
            Some(PageValueModel::Json(s)) => Ok(s),
            None => Err("invalid page result: "@ + r.text),
        }
    }
}

fn final_answer_exec(r: &PageResult) -> (a: Result<String, String>)
    ensures
        result_view(a) == final_answer(r@),
{
    if r.undefined {
        return Ok(String::new());
    }
    match &r.value {
        Some(PageValue::Text(s)) => Ok(s.clone()),
        Some(PageValue::Json(s)) => Ok(s.clone()),
        None => {
            let mut m = String::from_str("invalid page result: ");
            m.append(r.text.as_str());
            Err(m)
        },
    }
}

/// The end of an evaluation with `result`.
pub open spec fn done(result: Result<Seq<char>, Seq<char>>) -> (EvalStateModel, EvalActionModel) {
    (EvalStateModel::Finished, EvalActionModel::Done { result })
}

/// What follows a result that is no longer pending: its error; the
/// navigation it asks for; else a look for a navigation the page recorded.
pub open spec fn after_settled(r: PageResultModel) -> (EvalStateModel, EvalActionModel) {
    match r.error {
        Some(e) => done(Err(e)),
        None => match r.navigate {
            Some(target) => match navigation_target(target, r.page_url) {
                Ok(u) => (
                    EvalStateModel::AwaitNav { answer: "200"@ },
                    EvalActionModel::Navigate { url: u },
                ),
                Err(e) => done(Err(e)),
            },
            None => (
                EvalStateModel::AwaitPendingNav { result: r },
                EvalActionModel::ReadPendingNavigation { script: take_nav_script() },
            ),
        },
    }
}

/// What a recorded navigation says: its `error` and `url` fields when they
/// are strings; the message of the error when the text is not JSON.
pub uninterp spec fn navigation_record(text: Seq<char>) -> Result<
    (Option<Seq<char>>, Option<Seq<char>>),
    Seq<char>,
>;

/// Parses `text` with `serde_json::from_str` into a `serde_json::Value` and
/// reads its `error` and `url` fields with `as_str`, or renders the parse
/// error with `Display`. The contract claims only that the result is a
/// function of `text`, named `navigation_record`.
#[verifier::external_body]
fn read_navigation_record(text: &str) -> (r: Result<(Option<String>, Option<String>), String>)
    ensures
        match r {
            Ok((e, u)) => navigation_record(text@) == Ok::<
                (Option<Seq<char>>, Option<Seq<char>>),
                Seq<char>,
            >((opt_view(e), opt_view(u))),
            Err(m) => navigation_record(text@) == Err::<
                (Option<Seq<char>>, Option<Seq<char>>),
                Seq<char>,
            >(m@),
        },
{
    match serde_json::from_str::<serde_json::Value>(text) {
        Ok(v) => Ok((v.get("error").and_then(serde_json::Value::as_str).map(String::from), v.get("url").and_then(serde_json::Value::as_str).map(String::from))),
        Err(e) => Err(e.to_string()),
    }
}

/// What follows the look for a recorded navigation (`pending`, the string
/// the page handed over, if any) after result `r`.
pub open spec fn after_pending_nav(r: PageResultModel, pending: Option<Seq<char>>) -> (
    EvalStateModel,
    EvalActionModel,
) {
    match pending {
        None => done(final_answer(r)),
        Some(text) => match navigation_record(text) {
            Err(m) => done(Err("invalid navigation: "@ + m)),
            Ok((error, url)) => match error {
                Some(e) => done(Err(e)),
                None => match url {
                    Some(u) => (
                        EvalStateModel::AwaitNav { answer: u },
                        EvalActionModel::Navigate { url: u },
                    ),
                    None => done(final_answer(r)),
                },
            },
        },
    }
}

/// What a result that arrives while nothing polls it leads to: a promise
/// ticket starts polling; anything else is settled.
pub open spec fn after_first_result(r: PageResultModel) -> (EvalStateModel, EvalActionModel) {
    match r.ticket {
        Some(t) => (
            EvalStateModel::PollSettle { ticket: t, round: 0 },
            EvalActionModel::Settle { ms: POLL_SETTLE_MS },
        ),
        None => after_settled(r),
    }
}

/// The error of a promise that is still pending after the last poll.
pub open spec fn pending_message() -> Seq<char> {
    "promise still pending after 5000ms"@
}

/// The error of an event the evaluation did not wait for.
pub open spec fn protocol_message() -> Seq<char> {
    "unexpected engine event"@
}

/// The evaluation protocol: from `state`, on `event`, the next state and
/// action. A promise is polled up to `POLL_ROUNDS` times, each poll after
/// the page settled, with a wait after each poll that left it pending; then
/// it fails. A settled result fails with its error, navigates where it asks,
/// or hands over a navigation the page recorded, else answers its value. An
/// event the state does not await ends the evaluation with an error.
pub open spec fn eval_step(state: EvalStateModel, event: EvalEventModel) -> (
    EvalStateModel,
    EvalActionModel,
) {
    match (state, event) {
        (EvalStateModel::AwaitEval, EvalEventModel::Evaluated(r)) => after_first_result(r),
        (EvalStateModel::PollSettle { ticket, round }, EvalEventModel::Settled) => (
            EvalStateModel::AwaitTake { ticket, round },
            EvalActionModel::Evaluate { script: take_script(ticket) },
        ),
        (EvalStateModel::AwaitTake { ticket, round }, EvalEventModel::Evaluated(r)) => if !r.pending {
            after_settled(r)
        } else {
            (EvalStateModel::PollSleep { ticket, round }, EvalActionModel::Sleep { ms: POLL_SLEEP_MS })
        },
        (EvalStateModel::PollSleep { ticket, round }, EvalEventModel::Slept) => if round + 1
            < POLL_ROUNDS {
            (
                EvalStateModel::PollSettle { ticket, round: (round + 1) as u64 },
                EvalActionModel::Settle { ms: POLL_SETTLE_MS },
            )
        } else {
            done(Err(pending_message()))
        },
        (EvalStateModel::AwaitPendingNav { result }, EvalEventModel::PendingNavigation(p)) => after_pending_nav(
            result,
            p,
        ),
        (EvalStateModel::AwaitNav { answer }, EvalEventModel::Navigated(n)) => match n {
            Ok(()) => done(Ok(answer)),
            Err(e) => done(Err(e)),
        },
        _ => done(Err(protocol_message())),
    }
}

fn finish(result: Result<String, String>) -> (r: (EvalState, EvalAction))
    ensures
        (r.0@, r.1@) == done(result_view(result)),
{
    (EvalState::Finished, EvalAction::Done { result })
}

fn after_settled_exec(r: PageResult) -> (o: (EvalState, EvalAction))
    ensures
        (o.0@, o.1@) == after_settled(r@),
{
    match &r.error {
        Some(e) => return finish(Err(e.clone())),
        None => {},
    }
    match &r.navigate {
        Some(target) => {
            return match navigation_target_exec(target.as_str(), r.page_url.as_str()) {
                Ok(u) => (EvalState::AwaitNav { answer: String::from_str("200") }, EvalAction::Navigate { url: u }),
                Err(e) => finish(Err(e)),
            };
        },
        None => {},
    }
    (
        EvalState::AwaitPendingNav { result: r },
        EvalAction::ReadPendingNavigation { script: String::from_str("__v8cliTakeNav()") },
    )
}

/// The next state and action of an evaluation in `state` on `event`.
pub fn eval_step_exec(state: EvalState, event: EvalEvent) -> (o: (EvalState, EvalAction))
    ensures
        (o.0@, o.1@) == eval_step(state@, event@),
{
    match state {
        EvalState::AwaitEval => match event {
            EvalEvent::Evaluated(r) => match r.ticket {
                Some(t) => (
                    EvalState::PollSettle { ticket: t, round: 0 },
                    EvalAction::Settle { ms: POLL_SETTLE_MS },
                ),
                None => after_settled_exec(r),
            },
            _ => finish(Err(String::from_str("unexpected engine event"))),
        },
        EvalState::PollSettle { ticket, round } => match event {
            EvalEvent::Settled => (
                EvalState::AwaitTake { ticket, round },
                EvalAction::Evaluate { script: take_call(ticket) },
            ),
            _ => finish(Err(String::from_str("unexpected engine event"))),
        },
        EvalState::AwaitTake { ticket, round } => match event {
            EvalEvent::Evaluated(r) => if !r.pending {
                after_settled_exec(r)
            } else {
                (EvalState::PollSleep { ticket, round }, EvalAction::Sleep { ms: POLL_SLEEP_MS })
            },
            _ => finish(Err(String::from_str("unexpected engine event"))),
        },
        EvalState::PollSleep { ticket, round } => match event {
            EvalEvent::Slept => if round < POLL_ROUNDS - 1 {
                (
                    EvalState::PollSettle { ticket, round: round + 1 },
                    EvalAction::Settle { ms: POLL_SETTLE_MS },
                )
            } else {
                finish(Err(String::from_str("promise still pending after 5000ms")))
            },
            _ => finish(Err(String::from_str("unexpected engine event"))),
        },
        EvalState::AwaitPendingNav { result } => match event {
            EvalEvent::PendingNavigation(p) => match p {
                None => finish(final_answer_exec(&result)),
                Some(text) => match read_navigation_record(text.as_str()) {
                    Err(m) => {
                        let mut s = String::from_str("invalid navigation: ");
                        s.append(m.as_str());
                        finish(Err(s))
                    },
                    Ok((error, url)) => match error {
                        Some(e) => finish(Err(e)),
                        None => match url {
                            Some(u) => {
                                let a = u.clone();
                                (EvalState::AwaitNav { answer: a }, EvalAction::Navigate { url: u })
                            },
                            None => finish(final_answer_exec(&result)),
                        },
                    },
                },
            },
            _ => finish(Err(String::from_str("unexpected engine event"))),
        },
        EvalState::AwaitNav { answer } => match event {
            EvalEvent::Navigated(n) => match n {
                Ok(()) => finish(Ok(answer)),
                Err(e) => finish(Err(e)),
            },
            _ => finish(Err(String::from_str("unexpected engine event"))),
        },
        EvalState::Finished => finish(Err(String::from_str("unexpected engine event"))),
    }
}

/// The round of promise polling a state stands at; `None` when it does not
/// poll.
pub open spec fn poll_round(s: EvalStateModel) -> Option<u64> {
    match s {
        EvalStateModel::PollSettle { round, .. } => Some(round),
        EvalStateModel::AwaitTake { round, .. } => Some(round),
        EvalStateModel::PollSleep { round, .. } => Some(round),
        _ => None,
    }
}

/// Polling a promise never goes past `POLL_ROUNDS` rounds: a step from a
/// state that polls below the bound leads to one that polls below it or does
/// not poll, a step never goes back to an earlier round, and the wait after
/// the last round ends the evaluation with the pending error.
pub proof fn lemma_polling_is_bounded(state: EvalStateModel, event: EvalEventModel)
    requires
        poll_round(state) matches Some(k) ==> k < POLL_ROUNDS,
    ensures
        poll_round(eval_step(state, event).0) matches Some(k) ==> k < POLL_ROUNDS,
        poll_round(state) matches Some(k) ==> (poll_round(eval_step(state, event).0) matches Some(
            j,
        ) ==> k <= j),
        (state matches EvalStateModel::PollSleep { round, .. } && round + 1 == POLL_ROUNDS && event
            == EvalEventModel::Slept) ==> eval_step(state, event) == done(Err(pending_message())),
{
}

/// At most how many more events an evaluation in state `s` handles before
/// it ends.
pub open spec fn steps_left(s: EvalStateModel) -> int {
    match s {
        EvalStateModel::AwaitEval => 5 + 3 * POLL_ROUNDS,
        EvalStateModel::PollSettle { round, .. } => 5 + 3 * (POLL_ROUNDS - 1 - round),
        EvalStateModel::AwaitTake { round, .. } => 4 + 3 * (POLL_ROUNDS - 1 - round),
        EvalStateModel::PollSleep { round, .. } => 3 + 3 * (POLL_ROUNDS - 1 - round),
        EvalStateModel::AwaitPendingNav { .. } => 2,
        EvalStateModel::AwaitNav { .. } => 1,
        EvalStateModel::Finished => 0,
    }
}

/// Every evaluation ends: each event handled before the end leaves fewer
/// steps to go, so no evaluation handles more than `5 + 3 * POLL_ROUNDS`
/// events; and a step ends in the finished state exactly when its action is
/// the answer.
pub proof fn lemma_evaluation_ends(state: EvalStateModel, event: EvalEventModel)
    requires
        state != EvalStateModel::Finished,
        poll_round(state) matches Some(k) ==> k < POLL_ROUNDS,
    ensures
        0 <= steps_left(eval_step(state, event).0) < steps_left(state) <= 5 + 3 * POLL_ROUNDS,
        eval_step(state, event).0 == EvalStateModel::Finished <==> eval_step(state, event).1 is Done,
{
}

/// An evaluation answers with a value only after it looked for a navigation
/// the page recorded, or after it completed a navigation, so a caller never
/// sees the old document behind a navigation the script started.
pub proof fn lemma_value_follows_navigation_check(state: EvalStateModel, event: EvalEventModel)
    ensures
        (eval_step(state, event).1 matches EvalActionModel::Done { result: Ok(_) }) ==> (state
            is AwaitPendingNav || state is AwaitNav),
{
}

} // verus!

verus! {

/// The `js` field of a request line, when the line is JSON with a string
/// there.
pub uninterp spec fn json_js_field(line: Seq<char>) -> Option<Seq<char>>;

/// Parses `line` with `serde_json::from_str` into a `serde_json::Value` and
/// reads its `js` field with `as_str`. The contract claims only that the
/// result is a function of `line`, named `json_js_field`.
#[verifier::external_body]
fn request_js_field(line: &str) -> (r: Option<String>)
    ensures
        opt_view(r) == json_js_field(line@),
{
    match serde_json::from_str::<serde_json::Value>(line) {
        Ok(v) => v["js"].as_str().map(String::from),
        Err(_) => None,
    }
}

/// The script a line of the serve protocol asks for: nothing for a blank
/// line; the `js` field of a JSON request; any other line as it is.
pub open spec fn serve_script_of(line: Seq<char>) -> Option<Seq<char>> {
    if trim(line).len() == 0 {
        None
    } else {
        match json_js_field(line) {
            Some(js) => Some(js),
            None => Some(line),
        }
    }
}

/// The script a line of the serve protocol asks for.
pub fn serve_script(line: &str) -> (r: Option<String>)
    ensures
        opt_view(r) == serve_script_of(line@),
{
    let v = chars_of(line);
    let t = trim_chars(v.as_slice());
    if t.len() == 0 {
        return None;
    }
    match request_js_field(line) {
        Some(js) => Some(js),
        None => Some(String::from_str(line)),
    }
}

/// The JSON text of the object holding `"ok": ok` and `key: text`, for
/// `key` one of `value` and `error`, as `serde_json` writes it: its `Map`
/// keeps keys sorted, so `"error"` comes before `"ok"` and `"ok"` before
/// `"value"`.
pub open spec fn json_response(ok: bool, key: Seq<char>, text: Seq<char>) -> Seq<char> {
    let ok_field = json_quoted("ok"@) + ":"@ + (if ok {
        "true"@
    } else {
        "false"@
    });
    let field = json_quoted(key) + ":"@ + json_quoted(text);
    if key == "error"@ {
        "{"@ + field + ","@ + ok_field + "}"@
    } else {
        "{"@ + ok_field + ","@ + field + "}"@
    }
}

/// Builds a `serde_json::Map` holding `ok` and `key: text`, and writes it as
/// a `serde_json::Value` with `to_string`. The contract claims the text that
/// `json_response` states: the compact form, keys in sorted order (the
/// `preserve_order` feature, which would keep insertion order, is off in
/// this build), strings quoted as `json_quoted` states.
#[verifier::external_body]
fn response_json(ok: bool, key: &str, text: &str) -> (r: String)
    requires
        key@ == "value"@ || key@ == "error"@,
    ensures
        r@ == json_response(ok, key@, text@),
{
    let mut obj = serde_json::Map::new();
    obj.insert("ok".to_string(), serde_json::Value::Bool(ok));
    obj.insert(key.to_string(), serde_json::Value::String(text.to_string()));
    serde_json::Value::Object(obj).to_string()
}

/// The response line of the serve protocol for an evaluation's answer.
pub open spec fn serve_response_of(r: Result<Seq<char>, Seq<char>>) -> Seq<char> {
    match r {
        Ok(v) => json_response(true, "value"@, v),
        Err(e) => json_response(false, "error"@, e),
    }
}

/// The response line of the serve protocol for an evaluation's answer.
pub fn serve_response(r: &Result<String, String>) -> (s: String)
    ensures
        s@ == serve_response_of(result_view(*r)),
{
    match r {
        Ok(v) => response_json(true, "value", v.as_str()),
        Err(e) => response_json(false, "error", e.as_str()),
    }
}

/// Rounds of watching a freshly loaded page for changes.
pub const OBSERVE_ROUNDS: u64 = 4;

/// After observation round `round` (counting from 0) saw `current` mutations
/// where the round before saw `previous`: whether to observe another round.
/// The page is watched while it still changes, at most `OBSERVE_ROUNDS`
/// rounds.
pub fn observation_continues(round: u64, previous: u64, current: u64) -> (b: bool)
    ensures
        b == (current != previous && round + 1 < OBSERVE_ROUNDS),
{
    current != previous && round < OBSERVE_ROUNDS - 1
}

} // verus!
