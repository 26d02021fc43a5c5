//! Bookkeeping of per-request gRPC metrics: which status a request is counted
//! under, and that every request is counted exactly once.
//!
//! The clock, the metric macros and the streaming of bodies belong to the
//! caller; this module decides what to record and when.

use vstd::prelude::*;

use crate::grpc::{code_of_number, GrpcCode};

verus! {

/// The status under which a request is counted.
#[derive(Debug, Clone, Copy, PartialEq, Eq, Structural)]
pub enum StatusLabel {
    /// The request ended with this gRPC status.
    Code(GrpcCode),
    /// The inner service failed before producing a response.
    TransportError,
    /// The response body was dropped before any status was seen.
    Incomplete,
}

impl StatusLabel {
    /// The label's text: the code's name, "TRANSPORT_ERROR" or "INCOMPLETE".
    pub open spec fn text_spec(self) -> Seq<char> {
        match self {
            StatusLabel::Code(code) => code.name_spec(),
            StatusLabel::TransportError => "TRANSPORT_ERROR"@,
            StatusLabel::Incomplete => "INCOMPLETE"@,
        }
    }

    /// The label's text.
    pub fn as_str(&self) -> (text: &'static str)
        ensures
            text@ == self.text_spec(),
    {
        match self {
            StatusLabel::Code(code) => code.name(),
            StatusLabel::TransportError => "TRANSPORT_ERROR",
            StatusLabel::Incomplete => "INCOMPLETE",
        }
    }
}

/// The number that the value of a `grpc-status` header spells: one to two
/// ASCII decimal digits without a leading zero, and at most 16.
pub open spec fn header_number(value: Seq<u8>) -> Option<int> {
    if value.len() == 1 && 0x30 <= value[0] <= 0x39 {
        Some(value[0] - 0x30)
    } else if value.len() == 2 && value[0] == 0x31 && 0x30 <= value[1] <= 0x36 {
        Some(10 + value[1] - 0x30)
    } else {
        None
    }
}

/// The code that a `grpc-status` header value names: "0" to "16" name the codes
/// with those numbers, anything else is `Unknown`.
pub open spec fn header_code(value: Seq<u8>) -> GrpcCode {
    match header_number(value) {
        Some(n) => code_of_number(n),
        None => GrpcCode::Unknown,
    }
}

/// The code that the `grpc-status` header names, when the header is present
/// (`header` holds its value's bytes).
pub fn status_code_from(header: Option<&[u8]>) -> (code: Option<GrpcCode>)
    ensures
        match header {
            Some(value) => code == Some(header_code(value@)),
            None => code is None,
        },
{
    match header {
        Some(value) => {
            let n: i32 = if value.len() == 1 && 0x30 <= value[0] && value[0] <= 0x39 {
                (value[0] - 0x30) as i32
            } else if value.len() == 2 && value[0] == 0x31 && 0x30 <= value[1] && value[1] <= 0x36 {
                (10 + value[1] - 0x30) as i32
            } else {
                -1
            };
            Some(GrpcCode::from_i32(n))
        },
        None => None,
    }
}

/// What happens to the body of a response while it streams.
#[derive(Debug, Clone, Copy, PartialEq, Eq, Structural)]
pub enum BodyEvent {
    /// A data frame.
    Data,
    /// The trailers frame, with the code that its `grpc-status` names, if any.
    Trailers(Option<GrpcCode>),
    /// The body failed with this status code.
    Error(GrpcCode),
    /// The body ended.
    End,
    /// No frame is ready yet.
    Pending,
}

/// The status that an event settles, if it settles one: trailers settle their
/// code (`Unknown` when they name none), an error its code, the end `OK`.
pub open spec fn event_status(event: BodyEvent) -> Option<StatusLabel> {
    match event {
        BodyEvent::Trailers(code) => Some(
            StatusLabel::Code(
                match code {
                    Some(c) => c,
                    None => GrpcCode::Unknown,
                },
            ),
        ),
        BodyEvent::Error(code) => Some(StatusLabel::Code(code)),
        BodyEvent::End => Some(StatusLabel::Code(GrpcCode::Success)),
        BodyEvent::Data => None,
        BodyEvent::Pending => None,
    }
}

/// Recording `status` when `recorded` tells whether the request was counted
/// already: the new flag, and the status to count now, if any.
pub open spec fn record_step(recorded: bool, status: StatusLabel) -> (bool, Option<StatusLabel>) {
    if recorded {
        (true, None)
    } else {
        (true, Some(status))
    }
}

/// Observing `event`: records the status it settles, if any.
pub open spec fn observe_step(recorded: bool, event: BodyEvent) -> (bool, Option<StatusLabel>) {
    match event_status(event) {
        Some(status) => record_step(recorded, status),
        None => (recorded, None),
    }
}

/// Dropping the body: counts it as `INCOMPLETE` if nothing was recorded.
pub open spec fn finish_step(recorded: bool) -> (bool, Option<StatusLabel>) {
    record_step(recorded, StatusLabel::Incomplete)
}

/// Records at most one status per request.
#[derive(Debug)]
pub struct GrpcMetricsRecorder {
    recorded: bool,
}

impl GrpcMetricsRecorder {
    /// Whether the request was counted already.
    pub closed spec fn recorded_spec(&self) -> bool {
        self.recorded
    }

    /// A recorder for a request that was not counted yet.
    pub fn new() -> (recorder: Self)
        ensures
            !recorder.recorded_spec(),
    {
        GrpcMetricsRecorder { recorded: false }
    }

    /// Whether the request was counted already.
    pub fn is_recorded(&self) -> (recorded: bool)
        ensures
            recorded == self.recorded_spec(),
    {
        self.recorded
    }

    /// Records `status`: returns it to be counted, unless the request was counted
    /// already, in which case nothing is counted.
    pub fn record(&mut self, status: StatusLabel) -> (counted: Option<StatusLabel>)
        ensures
            (final(self).recorded_spec(), counted) == record_step(old(self).recorded_spec(), status),
    {
        if self.recorded {
            return None;
        }
        self.recorded = true;
        Some(status)
    }

    /// Observes an event of the response body, and returns the status to count
    /// now, if any.
    pub fn observe(&mut self, event: BodyEvent) -> (counted: Option<StatusLabel>)
        ensures
            (final(self).recorded_spec(), counted) == observe_step(old(self).recorded_spec(), event),
    {
        match event {
            BodyEvent::Trailers(code) => {
                let status = match code {
                    Some(c) => c,
                    None => GrpcCode::Unknown,
                };
                self.record(StatusLabel::Code(status))
            },
            BodyEvent::Error(code) => self.record(StatusLabel::Code(code)),
            BodyEvent::End => self.record(StatusLabel::Code(GrpcCode::Success)),
            BodyEvent::Data => None,
            BodyEvent::Pending => None,
        }
    }

    /// The body is dropped: returns `INCOMPLETE` to be counted if nothing was
    /// recorded before.
    pub fn finish(&mut self) -> (counted: Option<StatusLabel>)
        ensures
            (final(self).recorded_spec(), counted) == finish_step(old(self).recorded_spec()),
    {
        if !self.recorded {
            self.record(StatusLabel::Incomplete)
        } else {
            None
        }
    }
}

/// How a body event is counted. On a recorder that has counted nothing: a body
/// error with code `c` counts exactly `c`; trailers naming `c` count exactly `c`,
/// trailers naming no code count UNKNOWN; the end of the body counts OK; a data
/// frame or a pending poll counts nothing and leaves the recorder fresh. On a
/// recorder that has counted, no event counts anything. Dropping a fresh body
/// counts INCOMPLETE, dropping a counted one nothing.
pub proof fn lemma_body_events_counted()
    ensures
        forall|c: GrpcCode|
            #[trigger] observe_step(false, BodyEvent::Error(c)) == (true, Some(StatusLabel::Code(c))),
        forall|c: GrpcCode|
            #[trigger] observe_step(false, BodyEvent::Trailers(Some(c))) == (
                true,
                Some(StatusLabel::Code(c)),
            ),
        observe_step(false, BodyEvent::Trailers(None)) == (true, Some(StatusLabel::Code(GrpcCode::Unknown))),
        observe_step(false, BodyEvent::End) == (true, Some(StatusLabel::Code(GrpcCode::Success))),
        observe_step(false, BodyEvent::Data) == (false, None::<StatusLabel>),
        observe_step(false, BodyEvent::Pending) == (false, None::<StatusLabel>),
        forall|e: BodyEvent| #[trigger] observe_step(true, e) == (true, None::<StatusLabel>),
        finish_step(false) == (true, Some(StatusLabel::Incomplete)),
        finish_step(true) == (true, None::<StatusLabel>),
        forall|s: StatusLabel| #[trigger] record_step(false, s) == (true, Some(s)),
{
}

/// Labels are told apart: the labels of distinct statuses differ, and the two
/// labels that are not codes read "TRANSPORT_ERROR" and "INCOMPLETE".
pub proof fn lemma_labels_distinct()
    ensures
        StatusLabel::TransportError.text_spec() == "TRANSPORT_ERROR"@,
        StatusLabel::Incomplete.text_spec() == "INCOMPLETE"@,
        forall|a: StatusLabel, b: StatusLabel| #![trigger a.text_spec(), b.text_spec()] a != b ==> a.text_spec() != b.text_spec(),
{
    crate::grpc::lemma_protocol_names();
    reveal_strlit("TRANSPORT_ERROR");
    reveal_strlit("INCOMPLETE");
    reveal_strlit("OK");
    reveal_strlit("CANCELLED");
    reveal_strlit("UNKNOWN");
    reveal_strlit("INVALID_ARGUMENT");
    reveal_strlit("DEADLINE_EXCEEDED");
    reveal_strlit("NOT_FOUND");
    reveal_strlit("ALREADY_EXISTS");
    reveal_strlit("PERMISSION_DENIED");
    reveal_strlit("RESOURCE_EXHAUSTED");
    reveal_strlit("FAILED_PRECONDITION");
    reveal_strlit("ABORTED");
    reveal_strlit("OUT_OF_RANGE");
    reveal_strlit("UNIMPLEMENTED");
    reveal_strlit("INTERNAL");
    reveal_strlit("UNAVAILABLE");
    reveal_strlit("DATA_LOSS");
    reveal_strlit("UNAUTHENTICATED");
    assert forall|a: StatusLabel, b: StatusLabel| #![trigger a.text_spec(), b.text_spec()] a != b implies a.text_spec()
        != b.text_spec() by {
        if a.text_spec() =~= b.text_spec() {
            assert(a.text_spec()[0] == b.text_spec()[0]);
            assert(a.text_spec()[1] == b.text_spec()[1]);
            assert(a.text_spec()[2] == b.text_spec()[2]);
            assert(a.text_spec()[3] == b.text_spec()[3]);
            match (a, b) {
                (StatusLabel::Code(x), StatusLabel::Code(y)) => {
                    assert(x.name_spec() != y.name_spec());
                },
                _ => {},
            }
        }
    }
}

/// The decimal text of `n`, for `0 <= n <= 19`, as ASCII bytes.
pub open spec fn decimal_text(n: int) -> Seq<u8> {
    if n < 10 {
        seq![(0x30 + n) as u8]
    } else {
        seq![0x31u8, (0x30 + n - 10) as u8]
    }
}

/// The code a `grpc-status` header names, as the protocol numbers the codes: a
/// header reading the decimal text of `n` (0 to 16) names the code numbered `n`;
/// any other header value names UNKNOWN.
pub proof fn lemma_header_codes()
    ensures
        forall|n: int| 0 <= n <= 16 ==> (#[trigger] header_code(decimal_text(n))).number_spec() == n,
        forall|v: Seq<u8>| #![trigger header_code(v)] header_number(v) is None ==> header_code(v) == GrpcCode::Unknown,
        header_code(decimal_text(3)) == GrpcCode::InvalidArgument,
        header_code(decimal_text(13)).name_spec() == "INTERNAL"@,
{
    crate::grpc::lemma_protocol_numbers();
    crate::grpc::lemma_protocol_names();
    assert forall|n: int| 0 <= n <= 16 implies (#[trigger] header_code(decimal_text(n))).number_spec() == n by {
        assert(header_number(decimal_text(n)) == Some(n));
    }
    assert(header_number(decimal_text(3)) == Some(3int));
    assert(header_number(decimal_text(13)) == Some(13int));
}

/// The statuses counted for a body that sees `events` and is then dropped,
/// starting with the flag `recorded`.
pub open spec fn counted_statuses(recorded: bool, events: Seq<BodyEvent>) -> Seq<StatusLabel>
    decreases events.len(),
{
    if events.len() == 0 {
        match finish_step(recorded).1 {
            Some(status) => seq![status],
            None => seq![],
        }
    } else {
        let step = observe_step(recorded, events[0]);
        let now = match step.1 {
            Some(status) => seq![status],
            None => seq![],
        };
        now + counted_statuses(step.0, events.drop_first())
    }
}

/// The status of the first event that settles one, or `INCOMPLETE` if none does.
pub open spec fn first_status(events: Seq<BodyEvent>) -> StatusLabel
    decreases events.len(),
{
    if events.len() == 0 {
        StatusLabel::Incomplete
    } else {
        match event_status(events[0]) {
            Some(status) => status,
            None => first_status(events.drop_first()),
        }
    }
}

/// Every request is counted exactly once: whatever events a body sees before it
/// is dropped, a fresh recorder counts one status, that of the first event that
/// settles one (or `INCOMPLETE`); a recorder that has counted counts nothing more.
pub proof fn lemma_counted_exactly_once(events: Seq<BodyEvent>)
    ensures
        counted_statuses(false, events) == seq![first_status(events)],
        counted_statuses(true, events) == Seq::<StatusLabel>::empty(),
    decreases events.len(),
{
    if events.len() > 0 {
        lemma_counted_exactly_once(events.drop_first());
        match event_status(events[0]) {
            Some(status) => {
                assert(counted_statuses(false, events) =~= seq![status]);
            },
            None => {
                assert(counted_statuses(false, events) =~= counted_statuses(false, events.drop_first()));
            },
        }
        assert(counted_statuses(true, events) =~= counted_statuses(true, events.drop_first()));
    }
}

/// What the inner service gave back.
#[derive(Debug, Clone, Copy, PartialEq, Eq, Structural)]
pub enum ServiceOutcome {
    /// A response, with the code that its `grpc-status` header names, if it has one.
    Response(Option<GrpcCode>),
    /// The service failed without a response.
    TransportError,
}

/// What the middleware does with the outcome.
#[derive(Debug)]
pub enum MiddlewareAction {
    /// Count the request now under this status, and pass the outcome on.
    Record(StatusLabel),
    /// Pass the response on with its body observed by this recorder.
    ObserveBody(GrpcMetricsRecorder),
}

/// Counts every gRPC request by method and status, and times it.
#[derive(Debug, Clone, Copy)]
pub struct GrpcRequestMetricsMiddleware;

impl GrpcRequestMetricsMiddleware {
    /// Decides how a request is counted: a response whose headers carry a status
    /// is counted under it at once, a failed service as `TRANSPORT_ERROR`, and any
    /// other response once its body settles a status.
    pub fn on_service_result(&self, outcome: ServiceOutcome) -> (action: MiddlewareAction)
        ensures
            match outcome {
                ServiceOutcome::Response(Some(code)) => action == MiddlewareAction::Record(
                    StatusLabel::Code(code),
                ),
                ServiceOutcome::Response(None) => action matches MiddlewareAction::ObserveBody(
                    recorder,
                ) && !recorder.recorded_spec(),
                ServiceOutcome::TransportError => action == MiddlewareAction::Record(
                    StatusLabel::TransportError,
                ),
            },
    {
        match outcome {
            ServiceOutcome::Response(Some(code)) => MiddlewareAction::Record(StatusLabel::Code(code)),
            ServiceOutcome::Response(None) => MiddlewareAction::ObserveBody(GrpcMetricsRecorder::new()),
            ServiceOutcome::TransportError => MiddlewareAction::Record(StatusLabel::TransportError),
        }
    }
}

/// The number of `/` characters that `path` starts with.
pub open spec fn leading_slashes(path: Seq<char>) -> int
    decreases path.len(),
{
    if path.len() > 0 && path[0] == '/' {
        1 + leading_slashes(path.drop_first())
    } else {
        0
    }
}

/// The gRPC method that a request path names: the path without its leading `/`
/// characters (as `str::trim_start_matches('/')` gives it).
pub fn grpc_method_from_path(path: &str) -> (method: String)
    ensures
        method@ == path@.skip(leading_slashes(path@)),
{
    let len = path.unicode_len();
    let mut i: usize = 0;
    while i < len && path.get_char(i) == '/'
        invariant
            i <= len,
            len == path@.len(),
            forall|k: int| 0 <= k < i ==> path@[k] == '/',
        decreases len - i,
    {
        i = i + 1;
    }
    proof {
        lemma_leading_slashes(path@, i as int);
    }
    String::from_str(path.substring_char(i, len))
}

/// When the first `k` characters are `/` and the next one is not (or there is
/// none), `path` starts with exactly `k` slashes.
proof fn lemma_leading_slashes(path: Seq<char>, k: int)
    requires
        0 <= k <= path.len(),
        forall|i: int| 0 <= i < k ==> path[i] == '/',
        k == path.len() || path[k] != '/',
    ensures
        leading_slashes(path) == k,
    decreases k,
{
    if k > 0 {
        let rest = path.drop_first();
        assert forall|i: int| 0 <= i < k - 1 implies rest[i] == '/' by {
            assert(rest[i] == path[i + 1]);
        }
        if k < path.len() {
            assert(rest[k - 1] == path[k]);
        }
        lemma_leading_slashes(rest, k - 1);
    }
}

} // verus!
