//! The test of one DoH endpoint as a state machine. The caller performs each
//! action (a TCP connect, a TLS handshake, a read of the shutdown flag, an
//! HTTP request) and hands the outcome back as an event; the machine decides
//! what comes next and keeps the record.

use vstd::prelude::*;
use crate::base64url::{base64url, base64url_encode};
use crate::dns::{build_dns_query, dns_query};
use crate::endpoint::{classify_status, host_port, parse_host_port};
use crate::text::{
    copy_bytes, copy_string, decimal, join, join_strings, opt_view, push_decimal, push_str,
    string_views,
};
use crate::types::{fresh_result, interrupted_result, DoHMethod, DoHResult, DoHStatus, ResultModel};
use vstd::utf8::encode_utf8;

verus! {

/// Where a probe stands.
#[derive(Debug, Clone, Copy, PartialEq, Eq, Structural)]
pub enum ProbePhase {
    /// Waiting for the TCP connect.
    Connecting,
    /// Waiting for the TLS handshake.
    Handshaking,
    /// Waiting for the shutdown flag before the next query attempt.
    Gate,
    /// Waiting for the reply to a query.
    Querying,
    /// Waiting for the shutdown flag after the last attempt.
    Closing,
    /// Finished; the record is final.
    Done,
}

/// What one DoH request yielded.
pub enum ReplyOutcome {
    /// A response with at least one address.
    Answered(Vec<String>),
    /// A well-formed response without addresses.
    NoAnswer,
    /// The request failed; the text says how.
    Failed(String),
}

/// `ReplyOutcome` taken by its characters.
pub enum ReplyModel {
    Answered(Seq<Seq<char>>),
    NoAnswer,
    Failed(Seq<char>),
}

/// The outcome of the last action.
pub enum ProbeEvent {
    TcpChecked { ok: bool, ip: Option<String>, error: Option<String> },
    TlsChecked { ok: bool, info: Option<String>, error: Option<String> },
    ShutdownFlag { requested: bool },
    /// `latency_slot` names the caller's measurement of this request.
    Reply { outcome: ReplyOutcome, latency_slot: u64 },
}

/// `ProbeEvent` taken by its characters.
pub enum EventModel {
    TcpChecked { ok: bool, ip: Option<Seq<char>>, error: Option<Seq<char>> },
    TlsChecked { ok: bool, info: Option<Seq<char>>, error: Option<Seq<char>> },
    ShutdownFlag { requested: bool },
    Reply { outcome: ReplyModel, latency_slot: u64 },
}

impl View for ReplyOutcome {
    type V = ReplyModel;

    open spec fn view(&self) -> ReplyModel {
        match self {
            ReplyOutcome::Answered(ips) => ReplyModel::Answered(string_views(ips@)),
            ReplyOutcome::NoAnswer => ReplyModel::NoAnswer,
            ReplyOutcome::Failed(msg) => ReplyModel::Failed(msg@),
        }
    }
}

impl View for ProbeEvent {
    type V = EventModel;

    open spec fn view(&self) -> EventModel {
        match self {
            ProbeEvent::TcpChecked { ok, ip, error } => EventModel::TcpChecked {
                ok: *ok,
                ip: opt_view(*ip),
                error: opt_view(*error),
            },
            ProbeEvent::TlsChecked { ok, info, error } => EventModel::TlsChecked {
                ok: *ok,
                info: opt_view(*info),
                error: opt_view(*error),
            },
            ProbeEvent::ShutdownFlag { requested } => EventModel::ShutdownFlag { requested: *requested },
            ProbeEvent::Reply { outcome, latency_slot } => EventModel::Reply {
                outcome: outcome@,
                latency_slot: *latency_slot,
            },
        }
    }
}

/// What the caller is to do next.
pub enum ProbeAction {
    ConnectTcp { host: String, port: u16 },
    Handshake { host: String, port: u16, verify_tls: bool },
    ReadShutdownFlag,
    /// GET of `url`, which carries the query in its `dns` parameter.
    SendGetWire { url: String },
    /// POST of the wire-format query `body` to `url`.
    SendPostWire { url: String, body: Vec<u8> },
    /// GET of `url` with the parameters `name` and `type=A`, JSON answer.
    SendGetJson { url: String, name: String },
    Finished,
}

/// `ProbeAction` taken by its characters.
pub enum ActionModel {
    ConnectTcp { host: Seq<char>, port: u16 },
    Handshake { host: Seq<char>, port: u16, verify_tls: bool },
    ReadShutdownFlag,
    SendGetWire { url: Seq<char> },
    SendPostWire { url: Seq<char>, body: Seq<u8> },
    SendGetJson { url: Seq<char>, name: Seq<char> },
    Finished,
}

impl View for ProbeAction {
    type V = ActionModel;

    open spec fn view(&self) -> ActionModel {
        match self {
            ProbeAction::ConnectTcp { host, port } => ActionModel::ConnectTcp { host: host@, port: *port },
            ProbeAction::Handshake { host, port, verify_tls } => ActionModel::Handshake {
                host: host@,
                port: *port,
                verify_tls: *verify_tls,
            },
            ProbeAction::ReadShutdownFlag => ActionModel::ReadShutdownFlag,
            ProbeAction::SendGetWire { url } => ActionModel::SendGetWire { url: url@ },
            ProbeAction::SendPostWire { url, body } => ActionModel::SendPostWire { url: url@, body: body@ },
            ProbeAction::SendGetJson { url, name } => ActionModel::SendGetJson { url: url@, name: name@ },
            ProbeAction::Finished => ActionModel::Finished,
        }
    }
}

/// The state of a probe, its strings taken by their characters.
#[verifier::ext_equal]
pub struct ProbeModel {
    pub result: ResultModel,
    pub phase: ProbePhase,
    pub attempts: u32,
    pub min_success: u32,
    pub verify_tls: bool,
    /// Index of the current query attempt, from zero.
    pub attempt: u32,
    /// The request form being tried in the current attempt.
    pub method: DoHMethod,
    pub successes: u32,
    pub last_ips: Seq<Seq<char>>,
    pub last_method: Option<DoHMethod>,
    pub last_latency: Option<u64>,
    pub doh_url: Seq<char>,
    pub domain: Seq<char>,
    pub query: Seq<u8>,
    pub get_url: Seq<char>,
}

/// The state after `begin`: the shutdown flag read `shutdown`.
pub open spec fn probe_begin(
    doh_url: Seq<char>,
    domain: Seq<char>,
    attempts: u32,
    min_success: u32,
    verify_tls: bool,
    shutdown: bool,
) -> ProbeModel {
    let (host, port) = host_port(doh_url);
    let query = dns_query(encode_utf8(domain));
    ProbeModel {
        result: if shutdown {
            interrupted_result(doh_url, host, port, attempts)
        } else {
            fresh_result(doh_url, host, port, attempts)
        },
        phase: if shutdown { ProbePhase::Done } else { ProbePhase::Connecting },
        attempts,
        min_success,
        verify_tls,
        attempt: 0,
        method: DoHMethod::GetWire,
        successes: 0,
        last_ips: seq![],
        last_method: None,
        last_latency: None,
        doh_url,
        domain,
        query,
        get_url: doh_url + "?dns="@ + base64url(query),
    }
}

/// The state with `note` added to the record's notes.
pub open spec fn with_note(m: ProbeModel, note: Seq<char>) -> ProbeModel {
    ProbeModel { result: ResultModel { notes: m.result.notes.push(note), ..m.result }, ..m }
}

/// `text`, or nothing when there is none.
pub open spec fn text_or_empty(text: Option<Seq<char>>) -> Seq<char> {
    match text {
        Some(t) => t,
        None => seq![],
    }
}

/// The record classified by its count of successful queries.
pub open spec fn classified(r: ResultModel) -> ResultModel {
    ResultModel { status: classify_status(r.successes as nat), ..r }
}

/// Label of the current attempt in notes: `attempt` and its number from one.
pub open spec fn attempt_label(m: ProbeModel) -> Seq<char> {
    "attempt"@ + decimal(m.attempt as nat + 1)
}

/// Moves on to the next attempt, or to closing after the last one.
pub open spec fn after_attempt(m: ProbeModel) -> ProbeModel {
    let next = m.attempt + 1;
    ProbeModel {
        attempt: next as u32,
        method: DoHMethod::GetWire,
        phase: if next < m.attempts { ProbePhase::Gate } else { ProbePhase::Closing },
        ..m
    }
}

/// The final record: the tally of the attempts and the verdict.
pub open spec fn closed_result(m: ProbeModel, requested: bool) -> ResultModel {
    let r = ResultModel {
        successes: m.successes,
        target_ips: join(m.last_ips, ","@),
        method: m.last_method,
        ..m.result
    };
    if requested {
        ResultModel { status: DoHStatus::Interrupted, ..r }
    } else if m.successes >= m.min_success {
        ResultModel { status: DoHStatus::Working, ..r }
    } else if m.successes > 0 {
        ResultModel { status: DoHStatus::Flaky, notes: r.notes.push("tls_ok_but_no_doh_answers"@), ..r }
    } else {
        ResultModel { notes: r.notes.push("tls_ok_but_no_doh_answers"@), ..r }
    }
}

/// The next state. An event that the current phase does not wait for leaves
/// the state as it is.
pub open spec fn probe_next(m: ProbeModel, e: EventModel) -> ProbeModel {
    match e {
        EventModel::TcpChecked { ok, ip, error } => if m.phase == ProbePhase::Connecting {
            let r = ResultModel { tcp_ok: ok, doh_server_ip: ip, ..m.result };
            if ok {
                ProbeModel { result: r, phase: ProbePhase::Handshaking, ..m }
            } else {
                ProbeModel {
                    result: classified(
                        ResultModel {
                            notes: r.notes.push("tcp_connect_failed:"@ + text_or_empty(error)),
                            ..r
                        },
                    ),
                    phase: ProbePhase::Done,
                    ..m
                }
            }
        } else {
            m
        },
        EventModel::TlsChecked { ok, info, error } => if m.phase == ProbePhase::Handshaking {
            let r = ResultModel { tls_ok: ok, tls_info: info, ..m.result };
            if ok {
                ProbeModel {
                    result: r,
                    phase: if m.attempts > 0 { ProbePhase::Gate } else { ProbePhase::Closing },
                    ..m
                }
            } else {
                ProbeModel {
                    result: classified(
                        ResultModel {
                            notes: r.notes.push("tls_handshake_failed:"@ + text_or_empty(error)),
                            ..r
                        },
                    ),
                    phase: ProbePhase::Done,
                    ..m
                }
            }
        } else {
            m
        },
        EventModel::ShutdownFlag { requested } => if m.phase == ProbePhase::Gate {
            if requested {
                with_note(
                    ProbeModel { phase: ProbePhase::Closing, ..m },
                    "interrupted_at_attempt"@ + decimal(m.attempt as nat + 1),
                )
            } else {
                ProbeModel { phase: ProbePhase::Querying, method: DoHMethod::GetWire, ..m }
            }
        } else if m.phase == ProbePhase::Closing {
            ProbeModel { result: closed_result(m, requested), phase: ProbePhase::Done, ..m }
        } else {
            m
        },
        EventModel::Reply { outcome, latency_slot } => if m.phase == ProbePhase::Querying {
            match outcome {
                ReplyModel::Answered(ips) => after_attempt(
                    ProbeModel {
                        successes: (m.successes + 1) as u32,
                        last_ips: ips,
                        last_method: Some(m.method),
                        last_latency: Some(latency_slot),
                        ..m
                    },
                ),
                ReplyModel::NoAnswer => match m.method {
                    DoHMethod::GetWire => ProbeModel { method: DoHMethod::PostWire, ..m },
                    DoHMethod::PostWire => ProbeModel { method: DoHMethod::GetJson, ..m },
                    DoHMethod::GetJson => after_attempt(with_note(m, attempt_label(m) + ":no_response"@)),
                },
                ReplyModel::Failed(msg) => match m.method {
                    DoHMethod::GetWire => ProbeModel { method: DoHMethod::PostWire, ..m },
                    DoHMethod::PostWire => ProbeModel { method: DoHMethod::GetJson, ..m },
                    DoHMethod::GetJson => after_attempt(with_note(m, attempt_label(m) + ":"@ + msg)),
                },
            }
        } else {
            m
        },
    }
}

/// The action that a state asks for.
pub open spec fn probe_action(m: ProbeModel) -> ActionModel {
    match m.phase {
        ProbePhase::Connecting => ActionModel::ConnectTcp { host: m.result.host, port: m.result.port },
        ProbePhase::Handshaking => ActionModel::Handshake {
            host: m.result.host,
            port: m.result.port,
            verify_tls: m.verify_tls,
        },
        ProbePhase::Gate => ActionModel::ReadShutdownFlag,
        ProbePhase::Closing => ActionModel::ReadShutdownFlag,
        ProbePhase::Querying => match m.method {
            DoHMethod::GetWire => ActionModel::SendGetWire { url: m.get_url },
            DoHMethod::PostWire => ActionModel::SendPostWire { url: m.doh_url, body: m.query },
            DoHMethod::GetJson => ActionModel::SendGetJson { url: m.doh_url, name: m.domain },
        },
        ProbePhase::Done => ActionModel::Finished,
    }
}

/// The bounds that every state of a probe keeps.
pub open spec fn probe_wf(m: ProbeModel) -> bool {
    &&& m.successes <= m.attempt <= m.attempts
    &&& (m.phase == ProbePhase::Gate || m.phase == ProbePhase::Querying) ==> m.attempt < m.attempts
    &&& (m.phase == ProbePhase::Connecting || m.phase == ProbePhase::Handshaking) ==> m.attempt == 0
    &&& m.result.attempts == m.attempts
    &&& m.phase != ProbePhase::Done ==> m.result.status == DoHStatus::Blocked && m.result.successes == 0
}

/// Every step keeps the bounds of a probe.
pub proof fn lemma_probe_next_wf(m: ProbeModel, e: EventModel)
    requires
        probe_wf(m),
    ensures
        probe_wf(probe_next(m, e)),
{
}

/// A new probe is within the bounds of a probe.
pub proof fn lemma_probe_begin_wf(
    doh_url: Seq<char>,
    domain: Seq<char>,
    attempts: u32,
    min_success: u32,
    verify_tls: bool,
    shutdown: bool,
)
    ensures
        probe_wf(probe_begin(doh_url, domain, attempts, min_success, verify_tls, shutdown)),
{
}

/// True when `e` is the outcome that the phase of `m` waits for.
pub open spec fn awaited(m: ProbeModel, e: EventModel) -> bool {
    match e {
        EventModel::TcpChecked { .. } => m.phase == ProbePhase::Connecting,
        EventModel::TlsChecked { .. } => m.phase == ProbePhase::Handshaking,
        EventModel::ShutdownFlag { .. } => m.phase == ProbePhase::Gate || m.phase == ProbePhase::Closing,
        EventModel::Reply { .. } => m.phase == ProbePhase::Querying,
    }
}

/// Steps left at most before a probe is done.
pub open spec fn steps_left(m: ProbeModel) -> nat {
    let per_attempt = 4 * (m.attempts - m.attempt);
    match m.phase {
        ProbePhase::Connecting => (4 * m.attempts + 3) as nat,
        ProbePhase::Handshaking => (4 * m.attempts + 2) as nat,
        ProbePhase::Gate => (per_attempt + 1) as nat,
        ProbePhase::Querying => match m.method {
            DoHMethod::GetWire => per_attempt as nat,
            DoHMethod::PostWire => (per_attempt - 1) as nat,
            DoHMethod::GetJson => (per_attempt - 2) as nat,
        },
        ProbePhase::Closing => 1,
        ProbePhase::Done => 0,
    }
}

/// A finished probe stays as it is, whatever comes.
pub proof fn lemma_done_is_final(m: ProbeModel, e: EventModel)
    requires
        m.phase == ProbePhase::Done,
    ensures
        probe_next(m, e) == m,
{
}

/// An outcome that the probe does not wait for changes nothing.
pub proof fn lemma_unawaited_ignored(m: ProbeModel, e: EventModel)
    requires
        !awaited(m, e),
    ensures
        probe_next(m, e) == m,
{
}

/// Every awaited outcome brings the probe closer to its end: a probe is done
/// after at most `4 * attempts + 3` of them.
pub proof fn lemma_probe_progress(m: ProbeModel, e: EventModel)
    requires
        probe_wf(m),
        awaited(m, e),
    ensures
        steps_left(probe_next(m, e)) < steps_left(m),
        steps_left(m) <= 4 * m.attempts + 3,
        steps_left(probe_next(m, e)) == 0 <==> probe_next(m, e).phase == ProbePhase::Done,
{
    if m.phase == ProbePhase::Querying {
        assert(m.attempt < m.attempts);
    }
}

/// Notes are only ever added: the notes before a step begin the notes after it.
pub proof fn lemma_notes_grow(m: ProbeModel, e: EventModel)
    ensures
        m.result.notes.len() <= probe_next(m, e).result.notes.len(),
        probe_next(m, e).result.notes.take(m.result.notes.len() as int) == m.result.notes,
{
    let n = probe_next(m, e).result.notes;
    assert(n.take(m.result.notes.len() as int) =~= m.result.notes);
}

/// The verdict at the end of the attempts: interrupted when a shutdown was
/// requested; otherwise `Working` with at least `min_success` successful
/// attempts, `Flaky` with fewer but some, `Blocked` with none. The record
/// then holds the count of successful attempts, at most the attempts made.
pub proof fn lemma_probe_verdict(m: ProbeModel, requested: bool)
    requires
        probe_wf(m),
        m.phase == ProbePhase::Closing,
    ensures
        ({
            let r = probe_next(m, EventModel::ShutdownFlag { requested }).result;
            &&& r.successes == m.successes <= m.attempts
            &&& requested ==> r.status == DoHStatus::Interrupted
            &&& !requested && m.successes >= m.min_success ==> r.status == DoHStatus::Working
            &&& !requested && 0 < m.successes < m.min_success ==> r.status == DoHStatus::Flaky
            &&& !requested && m.successes == 0 && m.min_success > 0 ==> r.status == DoHStatus::Blocked
        }),
{
}

/// A probe ends `Interrupted` only when it began under a shutdown request
/// or read the shutdown flag set when closing.
pub proof fn lemma_interrupted_only_on_shutdown(m: ProbeModel, e: EventModel)
    requires
        m.result.status != DoHStatus::Interrupted,
        probe_next(m, e).result.status == DoHStatus::Interrupted,
    ensures
        m.phase == ProbePhase::Closing,
        e == (EventModel::ShutdownFlag { requested: true }),
{
}

/// Within an attempt the request forms go in order: GET wire, POST wire,
/// GET JSON. A reply without addresses, or a failed request, moves on to the
/// next form; an answer ends the attempt, and so does any outcome of the
/// last form, whose failure (or lack of addresses) is what the attempt's
/// note records. The next attempt starts again with GET wire.
pub proof fn lemma_method_order(m: ProbeModel, outcome: ReplyModel, latency_slot: u64)
    requires
        probe_wf(m),
        m.phase == ProbePhase::Querying,
    ensures
        ({
            let n = probe_next(m, EventModel::Reply { outcome, latency_slot });
            &&& !(outcome is Answered) && m.method == DoHMethod::GetWire ==> n.phase == ProbePhase::Querying
                && n.method == DoHMethod::PostWire && n.attempt == m.attempt && n.result == m.result
            &&& !(outcome is Answered) && m.method == DoHMethod::PostWire ==> n.phase == ProbePhase::Querying
                && n.method == DoHMethod::GetJson && n.attempt == m.attempt && n.result == m.result
            &&& (outcome is Answered || m.method == DoHMethod::GetJson) ==> n.attempt == m.attempt + 1
                && n.method == DoHMethod::GetWire && (n.phase == ProbePhase::Gate || n.phase
                == ProbePhase::Closing)
            &&& m.method == DoHMethod::GetJson ==> (outcome matches ReplyModel::Failed(msg) ==> n.result.notes
                == m.result.notes.push(attempt_label(m) + ":"@ + msg))
            &&& outcome is NoAnswer && m.method == DoHMethod::GetJson ==> n.result.notes == m.result.notes.push(
                attempt_label(m) + ":no_response"@)
            &&& outcome is Answered ==> n.successes == m.successes + 1 && n.result.notes == m.result.notes
            &&& !(outcome is Answered) ==> n.successes == m.successes
        }),
{
}

/// The state after the events `es`, taken in order.
pub open spec fn probe_run(m: ProbeModel, es: Seq<EventModel>) -> ProbeModel
    decreases es.len(),
{
    if es.len() == 0 {
        m
    } else {
        probe_next(probe_run(m, es.drop_last()), es.last())
    }
}

/// Whether certificates are verified is fixed when the probe begins: after
/// any events, a requested handshake verifies exactly when the probe was
/// begun with `verify_tls`.
pub proof fn lemma_handshake_keeps_verify_flag(
    doh_url: Seq<char>,
    domain: Seq<char>,
    attempts: u32,
    min_success: u32,
    verify_tls: bool,
    shutdown: bool,
    es: Seq<EventModel>,
)
    ensures
        probe_run(probe_begin(doh_url, domain, attempts, min_success, verify_tls, shutdown), es).verify_tls
            == verify_tls,
        probe_action(probe_run(probe_begin(doh_url, domain, attempts, min_success, verify_tls, shutdown), es))
            matches ActionModel::Handshake { verify_tls: v, .. } ==> v == verify_tls,
    decreases es.len(),
{
    if es.len() > 0 {
        lemma_handshake_keeps_verify_flag(doh_url, domain, attempts, min_success, verify_tls, shutdown, es.drop_last());
    }
}

/// After a successful TCP connect, the probe asks for a TLS handshake with
/// the host and port of the URL, verifying certificates exactly when it was
/// begun with `verify_tls`.
pub proof fn lemma_handshake_after_connect(
    doh_url: Seq<char>,
    domain: Seq<char>,
    attempts: u32,
    min_success: u32,
    verify_tls: bool,
    ip: Option<Seq<char>>,
    error: Option<Seq<char>>,
)
    ensures
        probe_action(
            probe_next(
                probe_begin(doh_url, domain, attempts, min_success, verify_tls, false),
                EventModel::TcpChecked { ok: true, ip, error },
            ),
        ) == (ActionModel::Handshake {
            host: host_port(doh_url).0,
            port: host_port(doh_url).1,
            verify_tls,
        }),
{
}

/// True when `e` reports a failed TCP connect or TLS handshake that `m` waits for.
pub open spec fn connection_failed(m: ProbeModel, e: EventModel) -> bool {
    match e {
        EventModel::TcpChecked { ok, .. } => m.phase == ProbePhase::Connecting && !ok,
        EventModel::TlsChecked { ok, .. } => m.phase == ProbePhase::Handshaking && !ok,
        _ => false,
    }
}

/// A TCP or TLS failure ends the probe `Blocked`, before any query.
pub proof fn lemma_connection_failure_blocks(m: ProbeModel, e: EventModel)
    requires
        probe_wf(m),
        connection_failed(m, e),
    ensures
        probe_next(m, e).phase == ProbePhase::Done,
        probe_next(m, e).result.status == DoHStatus::Blocked,
{
}

/// The test of one DoH endpoint, in progress or finished.
pub struct EndpointProbe {
    result: DoHResult,
    phase: ProbePhase,
    attempts: u32,
    min_success: u32,
    verify_tls: bool,
    attempt: u32,
    method: DoHMethod,
    successes: u32,
    last_ips: Vec<String>,
    last_method: Option<DoHMethod>,
    last_latency: Option<u64>,
    doh_url: String,
    domain: String,
    query: Vec<u8>,
    get_url: String,
}

impl View for EndpointProbe {
    type V = ProbeModel;

    closed spec fn view(&self) -> ProbeModel {
        ProbeModel {
            result: self.result@,
            phase: self.phase,
            attempts: self.attempts,
            min_success: self.min_success,
            verify_tls: self.verify_tls,
            attempt: self.attempt,
            method: self.method,
            successes: self.successes,
            last_ips: string_views(self.last_ips@),
            last_method: self.last_method,
            last_latency: self.last_latency,
            doh_url: self.doh_url@,
            domain: self.domain@,
            query: self.query@,
            get_url: self.get_url@,
        }
    }
}

impl EndpointProbe {
    /// Starts the test of `doh_url` for `domain`; `shutdown` is the shutdown
    /// flag as read before the test.
    pub fn begin(
        doh_url: &str,
        domain: &str,
        attempts: u32,
        min_success: u32,
        verify_tls: bool,
        shutdown: bool,
    ) -> (p: EndpointProbe)
        ensures
            p@ == probe_begin(doh_url@, domain@, attempts, min_success, verify_tls, shutdown),
            probe_wf(p@),
    {
        let (host, port) = parse_host_port(doh_url);
        let query = build_dns_query(domain);
        let mut get_url = doh_url.to_owned();
        push_str(&mut get_url, "?dns=");
        let encoded = base64url_encode(query.as_slice());
        push_str(&mut get_url, encoded.as_str());
        let result = if shutdown {
            DoHResult::interrupted(doh_url.to_owned(), host, port, attempts)
        } else {
            DoHResult::new(doh_url.to_owned(), host, port, attempts)
        };
        let p = EndpointProbe {
            result,
            phase: if shutdown { ProbePhase::Done } else { ProbePhase::Connecting },
            attempts,
            min_success,
            verify_tls,
            attempt: 0,
            method: DoHMethod::GetWire,
            successes: 0,
            last_ips: Vec::new(),
            last_method: None,
            last_latency: None,
            doh_url: doh_url.to_owned(),
            domain: domain.to_owned(),
            query,
            get_url,
        };
        assert(p@ =~= probe_begin(doh_url@, domain@, attempts, min_success, verify_tls, shutdown));
        p
    }

    /// The phase the probe is in.
    pub fn phase(&self) -> (ph: ProbePhase)
        ensures
            ph == self@.phase,
    {
        self.phase
    }

    /// The action that the probe waits on.
    pub fn action(&self) -> (a: ProbeAction)
        ensures
            a@ == probe_action(self@),
    {
        match self.phase {
            ProbePhase::Connecting => ProbeAction::ConnectTcp {
                host: copy_string(&self.result.host),
                port: self.result.port,
            },
            ProbePhase::Handshaking => ProbeAction::Handshake {
                host: copy_string(&self.result.host),
                port: self.result.port,
                verify_tls: self.verify_tls,
            },
            ProbePhase::Gate => ProbeAction::ReadShutdownFlag,
            ProbePhase::Closing => ProbeAction::ReadShutdownFlag,
            ProbePhase::Querying => match self.method {
                DoHMethod::GetWire => ProbeAction::SendGetWire { url: copy_string(&self.get_url) },
                DoHMethod::PostWire => ProbeAction::SendPostWire {
                    url: copy_string(&self.doh_url),
                    body: copy_bytes(&self.query),
                },
                DoHMethod::GetJson => ProbeAction::SendGetJson {
                    url: copy_string(&self.doh_url),
                    name: copy_string(&self.domain),
                },
            },
            ProbePhase::Done => ProbeAction::Finished,
        }
    }

    /// The record as it stands, and the caller's latency slot of the last
    /// answered request.
    pub fn into_result(self) -> (out: (DoHResult, Option<u64>))
        ensures
            out.0@ == self@.result,
            out.1 == self@.last_latency,
    {
        (self.result, self.last_latency)
    }

    fn push_note(&mut self, note: String)
        ensures
            final(self)@ == with_note(old(self)@, note@),
    {
        let ghost before = self.result@.notes;
        self.result.notes.push(note);
        assert(self.result@.notes =~= before.push(note@));
        assert(self@ =~= with_note(old(self)@, note@));
    }

    fn next_attempt(&mut self)
        requires
            old(self)@.successes <= old(self)@.attempt + 1,
            old(self)@.attempt < old(self)@.attempts,
            old(self)@.result.attempts == old(self)@.attempts,
            old(self)@.result.status == DoHStatus::Blocked,
            old(self)@.result.successes == 0,
        ensures
            final(self)@ == after_attempt(old(self)@),
            probe_wf(final(self)@),
    {
        self.attempt = self.attempt + 1;
        self.method = DoHMethod::GetWire;
        self.phase = if self.attempt < self.attempts { ProbePhase::Gate } else { ProbePhase::Closing };
        assert(self@ =~= after_attempt(old(self)@));
    }

    fn attempt_note(&self, tail: &str) -> (note: String)
        requires
            self@.attempt < u32::MAX,
        ensures
            note@ == attempt_label(self@) + tail@,
    {
        let mut note = "attempt".to_owned();
        push_decimal(&mut note, self.attempt as u64 + 1);
        push_str(&mut note, tail);
        note
    }

    /// Takes in the outcome of the last action.
    pub fn step(&mut self, event: ProbeEvent)
        requires
            probe_wf(old(self)@),
        ensures
            final(self)@ == probe_next(old(self)@, event@),
            probe_wf(final(self)@),
    {
        match event {
            ProbeEvent::TcpChecked { ok, ip, error } => {
                if self.phase != ProbePhase::Connecting {
                    return;
                }
                self.result.tcp_ok = ok;
                self.result.doh_server_ip = ip;
                if ok {
                    self.phase = ProbePhase::Handshaking;
                } else {
                    let mut note = "tcp_connect_failed:".to_owned();
                    if let Some(text) = &error {
                        push_str(&mut note, text.as_str());
                    }
                    assert(note@ =~= "tcp_connect_failed:"@ + text_or_empty(opt_view(error)));
                    let ghost before = self.result@.notes;
                    self.result.notes.push(note);
                    assert(self.result@.notes =~= before.push(note@));
                    self.result.status = crate::endpoint::classify_result_status(self.result.successes);
                    self.phase = ProbePhase::Done;
                }
            },
            ProbeEvent::TlsChecked { ok, info, error } => {
                if self.phase != ProbePhase::Handshaking {
                    return;
                }
                self.result.tls_ok = ok;
                self.result.tls_info = info;
                if ok {
                    self.phase = if self.attempts > 0 { ProbePhase::Gate } else { ProbePhase::Closing };
                } else {
                    let mut note = "tls_handshake_failed:".to_owned();
                    if let Some(text) = &error {
                        push_str(&mut note, text.as_str());
                    }
                    assert(note@ =~= "tls_handshake_failed:"@ + text_or_empty(opt_view(error)));
                    let ghost before = self.result@.notes;
                    self.result.notes.push(note);
                    assert(self.result@.notes =~= before.push(note@));
                    self.result.status = crate::endpoint::classify_result_status(self.result.successes);
                    self.phase = ProbePhase::Done;
                }
            },
            ProbeEvent::ShutdownFlag { requested } => {
                if self.phase == ProbePhase::Gate {
                    if requested {
                        let mut note = "interrupted_at_attempt".to_owned();
                        push_decimal(&mut note, self.attempt as u64 + 1);
                        self.phase = ProbePhase::Closing;
                        self.push_note(note);
                    } else {
                        self.phase = ProbePhase::Querying;
                        self.method = DoHMethod::GetWire;
                    }
                } else if self.phase == ProbePhase::Closing {
                    self.close(requested);
                }
            },
            ProbeEvent::Reply { outcome, latency_slot } => {
                if self.phase != ProbePhase::Querying {
                    return;
                }
                match outcome {
                    ReplyOutcome::Answered(ips) => {
                        self.successes = self.successes + 1;
                        self.last_ips = ips;
                        self.last_method = Some(self.method);
                        self.last_latency = Some(latency_slot);
                        self.next_attempt();
                    },
                    ReplyOutcome::NoAnswer => {
                        match self.method {
                            DoHMethod::GetWire => {
                                self.method = DoHMethod::PostWire;
                            },
                            DoHMethod::PostWire => {
                                self.method = DoHMethod::GetJson;
                            },
                            DoHMethod::GetJson => {
                                let note = self.attempt_note(":no_response");
                                self.push_note(note);
                                self.next_attempt();
                            },
                        }
                    },
                    ReplyOutcome::Failed(msg) => {
                        match self.method {
                            DoHMethod::GetWire => {
                                self.method = DoHMethod::PostWire;
                            },
                            DoHMethod::PostWire => {
                                self.method = DoHMethod::GetJson;
                            },
                            DoHMethod::GetJson => {
                                let mut note = self.attempt_note(":");
                                push_str(&mut note, msg.as_str());
                                self.push_note(note);
                                self.next_attempt();
                            },
                        }
                    },
                }
            },
        }
        assert(self@ =~= probe_next(old(self)@, event@));
        proof {
            lemma_probe_next_wf(old(self)@, event@);
        }
    }

    fn close(&mut self, requested: bool)
        requires
            probe_wf(old(self)@),
            old(self)@.phase == ProbePhase::Closing,
        ensures
            final(self)@ == (ProbeModel {
                result: closed_result(old(self)@, requested),
                phase: ProbePhase::Done,
                ..old(self)@
            }),
    {
        self.result.successes = self.successes;
        self.result.target_ips = join_strings(&self.last_ips, ",");
        self.result.method = self.last_method;
        if requested {
            self.result.status = DoHStatus::Interrupted;
        } else if self.successes >= self.min_success {
            self.result.status = DoHStatus::Working;
        } else {
            if self.successes > 0 {
                self.result.status = DoHStatus::Flaky;
            }
            let ghost before = self.result@.notes;
            self.result.notes.push("tls_ok_but_no_doh_answers".to_owned());
            assert(self.result@.notes =~= before.push("tls_ok_but_no_doh_answers"@));
        }
        self.phase = ProbePhase::Done;
        assert(self.result@ =~= closed_result(old(self)@, requested));
        assert(self@ =~= (ProbeModel {
            result: closed_result(old(self)@, requested),
            phase: ProbePhase::Done,
            ..old(self)@
        }));
    }
}

} // verus!
