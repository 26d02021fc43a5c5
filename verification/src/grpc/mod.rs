//! The request logic of the gRPC greeter service.

pub mod metrics;

use std::sync::Arc;

use vstd::prelude::*;

use crate::db::id::nth_id;
use crate::db::timestamp::{ProtoTimestamp, Timestamp};
use crate::db::total_count;
use crate::db::{
    appended, greetings_view, lookup, stored_greeting, with_greeting, Greeting, GreetingView,
    GreetingsRepository, NewGreeting, RecipientGreetings,
};

verus! {

/// The status codes of gRPC, numbered as the protocol numbers them (0 to 16);
/// `Success` is the code that gRPC calls OK.
#[derive(Debug, Clone, Copy, PartialEq, Eq, Structural)]
pub enum GrpcCode {
    Success,
    Cancelled,
    Unknown,
    InvalidArgument,
    DeadlineExceeded,
    NotFound,
    AlreadyExists,
    PermissionDenied,
    ResourceExhausted,
    FailedPrecondition,
    Aborted,
    OutOfRange,
    Unimplemented,
    Internal,
    Unavailable,
    DataLoss,
    Unauthenticated,
}

/// The code with protocol number `n`; a number outside 0 to 16 is `Unknown`.
pub open spec fn code_of_number(n: int) -> GrpcCode {
    if n == 0 {
        GrpcCode::Success
    } else if n == 1 {
        GrpcCode::Cancelled
    } else if n == 2 {
        GrpcCode::Unknown
    } else if n == 3 {
        GrpcCode::InvalidArgument
    } else if n == 4 {
        GrpcCode::DeadlineExceeded
    } else if n == 5 {
        GrpcCode::NotFound
    } else if n == 6 {
        GrpcCode::AlreadyExists
    } else if n == 7 {
        GrpcCode::PermissionDenied
    } else if n == 8 {
        GrpcCode::ResourceExhausted
    } else if n == 9 {
        GrpcCode::FailedPrecondition
    } else if n == 10 {
        GrpcCode::Aborted
    } else if n == 11 {
        GrpcCode::OutOfRange
    } else if n == 12 {
        GrpcCode::Unimplemented
    } else if n == 13 {
        GrpcCode::Internal
    } else if n == 14 {
        GrpcCode::Unavailable
    } else if n == 15 {
        GrpcCode::DataLoss
    } else if n == 16 {
        GrpcCode::Unauthenticated
    } else {
        GrpcCode::Unknown
    }
}

impl GrpcCode {
    /// The protocol number of the code.
    pub open spec fn number_spec(self) -> int {
        match self {
            GrpcCode::Success => 0,
            GrpcCode::Cancelled => 1,
            GrpcCode::Unknown => 2,
            GrpcCode::InvalidArgument => 3,
            GrpcCode::DeadlineExceeded => 4,
            GrpcCode::NotFound => 5,
            GrpcCode::AlreadyExists => 6,
            GrpcCode::PermissionDenied => 7,
            GrpcCode::ResourceExhausted => 8,
            GrpcCode::FailedPrecondition => 9,
            GrpcCode::Aborted => 10,
            GrpcCode::OutOfRange => 11,
            GrpcCode::Unimplemented => 12,
            GrpcCode::Internal => 13,
            GrpcCode::Unavailable => 14,
            GrpcCode::DataLoss => 15,
            GrpcCode::Unauthenticated => 16,
        }
    }

    /// The name of the code as the metrics label it: "OK", "CANCELLED", ...
    pub open spec fn name_spec(self) -> Seq<char> {
        match self {
            GrpcCode::Success => "OK"@,
            GrpcCode::Cancelled => "CANCELLED"@,
            GrpcCode::Unknown => "UNKNOWN"@,
            GrpcCode::InvalidArgument => "INVALID_ARGUMENT"@,
            GrpcCode::DeadlineExceeded => "DEADLINE_EXCEEDED"@,
            GrpcCode::NotFound => "NOT_FOUND"@,
            GrpcCode::AlreadyExists => "ALREADY_EXISTS"@,
            GrpcCode::PermissionDenied => "PERMISSION_DENIED"@,
            GrpcCode::ResourceExhausted => "RESOURCE_EXHAUSTED"@,
            GrpcCode::FailedPrecondition => "FAILED_PRECONDITION"@,
            GrpcCode::Aborted => "ABORTED"@,
            GrpcCode::OutOfRange => "OUT_OF_RANGE"@,
            GrpcCode::Unimplemented => "UNIMPLEMENTED"@,
            GrpcCode::Internal => "INTERNAL"@,
            GrpcCode::Unavailable => "UNAVAILABLE"@,
            GrpcCode::DataLoss => "DATA_LOSS"@,
            GrpcCode::Unauthenticated => "UNAUTHENTICATED"@,
        }
    }

    /// The code with protocol number `n`, `Unknown` for any other number.
    pub fn from_i32(n: i32) -> (code: GrpcCode)
        ensures
            code == code_of_number(n as int),
    {
        match n {
            0 => GrpcCode::Success,
            1 => GrpcCode::Cancelled,
            2 => GrpcCode::Unknown,
            3 => GrpcCode::InvalidArgument,
            4 => GrpcCode::DeadlineExceeded,
            5 => GrpcCode::NotFound,
            6 => GrpcCode::AlreadyExists,
            7 => GrpcCode::PermissionDenied,
            8 => GrpcCode::ResourceExhausted,
            9 => GrpcCode::FailedPrecondition,
            10 => GrpcCode::Aborted,
            11 => GrpcCode::OutOfRange,
            12 => GrpcCode::Unimplemented,
            13 => GrpcCode::Internal,
            14 => GrpcCode::Unavailable,
            15 => GrpcCode::DataLoss,
            16 => GrpcCode::Unauthenticated,
            _ => GrpcCode::Unknown,
        }
    }

    /// The protocol number of the code.
    pub fn number(&self) -> (n: i32)
        ensures
            n == self.number_spec(),
    {
        match self {
            GrpcCode::Success => 0,
            GrpcCode::Cancelled => 1,
            GrpcCode::Unknown => 2,
            GrpcCode::InvalidArgument => 3,
            GrpcCode::DeadlineExceeded => 4,
            GrpcCode::NotFound => 5,
            GrpcCode::AlreadyExists => 6,
            GrpcCode::PermissionDenied => 7,
            GrpcCode::ResourceExhausted => 8,
            GrpcCode::FailedPrecondition => 9,
            GrpcCode::Aborted => 10,
            GrpcCode::OutOfRange => 11,
            GrpcCode::Unimplemented => 12,
            GrpcCode::Internal => 13,
            GrpcCode::Unavailable => 14,
            GrpcCode::DataLoss => 15,
            GrpcCode::Unauthenticated => 16,
        }
    }

    /// The name of the code as the metrics label it.
    pub fn name(&self) -> (name: &'static str)
        ensures
            name@ == self.name_spec(),
    {
        match self {
            GrpcCode::Success => "OK",
            GrpcCode::Cancelled => "CANCELLED",
            GrpcCode::Unknown => "UNKNOWN",
            GrpcCode::InvalidArgument => "INVALID_ARGUMENT",
            GrpcCode::DeadlineExceeded => "DEADLINE_EXCEEDED",
            GrpcCode::NotFound => "NOT_FOUND",
            GrpcCode::AlreadyExists => "ALREADY_EXISTS",
            GrpcCode::PermissionDenied => "PERMISSION_DENIED",
            GrpcCode::ResourceExhausted => "RESOURCE_EXHAUSTED",
            GrpcCode::FailedPrecondition => "FAILED_PRECONDITION",
            GrpcCode::Aborted => "ABORTED",
            GrpcCode::OutOfRange => "OUT_OF_RANGE",
            GrpcCode::Unimplemented => "UNIMPLEMENTED",
            GrpcCode::Internal => "INTERNAL",
            GrpcCode::Unavailable => "UNAVAILABLE",
            GrpcCode::DataLoss => "DATA_LOSS",
            GrpcCode::Unauthenticated => "UNAUTHENTICATED",
        }
    }
}

/// The protocol's numbering of the status codes (OK = 0, CANCELLED = 1, ...,
/// UNAUTHENTICATED = 16): each number names its code and each code carries its
/// number; every other number is read as UNKNOWN.
pub proof fn lemma_protocol_numbers()
    ensures
        code_of_number(0) == GrpcCode::Success && GrpcCode::Success.number_spec() == 0,
        code_of_number(1) == GrpcCode::Cancelled && GrpcCode::Cancelled.number_spec() == 1,
        code_of_number(2) == GrpcCode::Unknown && GrpcCode::Unknown.number_spec() == 2,
        code_of_number(3) == GrpcCode::InvalidArgument && GrpcCode::InvalidArgument.number_spec() == 3,
        code_of_number(4) == GrpcCode::DeadlineExceeded && GrpcCode::DeadlineExceeded.number_spec() == 4,
        code_of_number(5) == GrpcCode::NotFound && GrpcCode::NotFound.number_spec() == 5,
        code_of_number(6) == GrpcCode::AlreadyExists && GrpcCode::AlreadyExists.number_spec() == 6,
        code_of_number(7) == GrpcCode::PermissionDenied && GrpcCode::PermissionDenied.number_spec() == 7,
        code_of_number(8) == GrpcCode::ResourceExhausted && GrpcCode::ResourceExhausted.number_spec() == 8,
        code_of_number(9) == GrpcCode::FailedPrecondition && GrpcCode::FailedPrecondition.number_spec() == 9,
        code_of_number(10) == GrpcCode::Aborted && GrpcCode::Aborted.number_spec() == 10,
        code_of_number(11) == GrpcCode::OutOfRange && GrpcCode::OutOfRange.number_spec() == 11,
        code_of_number(12) == GrpcCode::Unimplemented && GrpcCode::Unimplemented.number_spec() == 12,
        code_of_number(13) == GrpcCode::Internal && GrpcCode::Internal.number_spec() == 13,
        code_of_number(14) == GrpcCode::Unavailable && GrpcCode::Unavailable.number_spec() == 14,
        code_of_number(15) == GrpcCode::DataLoss && GrpcCode::DataLoss.number_spec() == 15,
        code_of_number(16) == GrpcCode::Unauthenticated && GrpcCode::Unauthenticated.number_spec() == 16,
        forall|n: int| #![trigger code_of_number(n)] 0 <= n <= 16 ==> code_of_number(n).number_spec() == n,
        forall|n: int| #![trigger code_of_number(n)] !(0 <= n <= 16) ==> code_of_number(n) == GrpcCode::Unknown,
        forall|c: GrpcCode| #![trigger c.number_spec()] code_of_number(c.number_spec()) == c,
{
}

/// The protocol's names of the status codes, as metrics label them: "OK" for 0,
/// ..., "INTERNAL" for 13, ..., "UNAUTHENTICATED" for 16. Distinct codes get
/// distinct names.
pub proof fn lemma_protocol_names()
    ensures
        GrpcCode::Success.name_spec() == "OK"@,
        GrpcCode::Cancelled.name_spec() == "CANCELLED"@,
        GrpcCode::Unknown.name_spec() == "UNKNOWN"@,
        GrpcCode::InvalidArgument.name_spec() == "INVALID_ARGUMENT"@,
        GrpcCode::DeadlineExceeded.name_spec() == "DEADLINE_EXCEEDED"@,
        GrpcCode::NotFound.name_spec() == "NOT_FOUND"@,
        GrpcCode::AlreadyExists.name_spec() == "ALREADY_EXISTS"@,
        GrpcCode::PermissionDenied.name_spec() == "PERMISSION_DENIED"@,
        GrpcCode::ResourceExhausted.name_spec() == "RESOURCE_EXHAUSTED"@,
        GrpcCode::FailedPrecondition.name_spec() == "FAILED_PRECONDITION"@,
        GrpcCode::Aborted.name_spec() == "ABORTED"@,
        GrpcCode::OutOfRange.name_spec() == "OUT_OF_RANGE"@,
        GrpcCode::Unimplemented.name_spec() == "UNIMPLEMENTED"@,
        GrpcCode::Internal.name_spec() == "INTERNAL"@,
        GrpcCode::Unavailable.name_spec() == "UNAVAILABLE"@,
        GrpcCode::DataLoss.name_spec() == "DATA_LOSS"@,
        GrpcCode::Unauthenticated.name_spec() == "UNAUTHENTICATED"@,
        forall|a: GrpcCode, b: GrpcCode| #![trigger a.name_spec(), b.name_spec()] a != b ==> a.name_spec() != b.name_spec(),
{
    reveal_strlit("OK");
    reveal_strlit("CANCELLED");
    reveal_strlit("UNKNOWN");
    reveal_strlit("INVALID_ARGUMENT");
    reveal_strlit("DEADLINE_EXCEEDED");
    reveal_strlit("NOT_FOUND");
    reveal_strlit("ALREADY_EXISTS");
    reveal_strlit("PERMISSION_DENIED");
    reveal_strlit("RESOURCE_EXHAUSTED");
    reveal_strlit("FAILED_PRECONDITION");
    reveal_strlit("ABORTED");
    reveal_strlit("OUT_OF_RANGE");
    reveal_strlit("UNIMPLEMENTED");
    reveal_strlit("INTERNAL");
    reveal_strlit("UNAVAILABLE");
    reveal_strlit("DATA_LOSS");
    reveal_strlit("UNAUTHENTICATED");
    assert forall|a: GrpcCode, b: GrpcCode| #![trigger a.name_spec(), b.name_spec()] a != b implies a.name_spec()
        != b.name_spec() by {
        if a.name_spec() =~= b.name_spec() {
            assert(a.name_spec()[0] == b.name_spec()[0]);
            assert(a.name_spec()[1] == b.name_spec()[1]);
            assert(a.name_spec()[2] == b.name_spec()[2]);
            assert(a.name_spec()[3] == b.name_spec()[3]);
        }
    }
}

/// A request that the service refuses: the status code and message to answer with.
#[derive(Debug, Clone, Copy, PartialEq, Eq)]
pub struct ServiceError {
    pub code: GrpcCode,
    pub message: &'static str,
}

/// A greeting as the service answers with it.
#[derive(Debug)]
pub struct GreetingResponse {
    pub id: u32,
    pub message: String,
    pub sender_name: String,
    pub recipient_name: String,
    pub received_at: Option<ProtoTimestamp>,
}

/// The contents of a [`GreetingResponse`].
pub struct GreetingResponseView {
    pub id: u32,
    pub message: Seq<char>,
    pub sender_name: Seq<char>,
    pub recipient_name: Seq<char>,
    pub received_at: Option<ProtoTimestamp>,
}

impl View for GreetingResponse {
    type V = GreetingResponseView;

    open spec fn view(&self) -> GreetingResponseView {
        GreetingResponseView {
            id: self.id,
            message: self.message@,
            sender_name: self.sender_name@,
            recipient_name: self.recipient_name@,
            received_at: self.received_at,
        }
    }
}

/// The answer for `greeting` addressed to `recipient_name`: its message reads
/// "<sender> says <message>", and its time is the stored timestamp.
pub open spec fn response_for(recipient_name: Seq<char>, greeting: GreetingView) -> GreetingResponseView {
    GreetingResponseView {
        id: greeting.id,
        message: greeting.sender_name + " says "@ + greeting.message,
        sender_name: greeting.sender_name,
        recipient_name,
        received_at: Some(greeting.timestamp.proto_spec()),
    }
}

/// The answers for a sequence of greetings addressed to `recipient_name`.
pub open spec fn responses_for(recipient_name: Seq<char>, greetings: Seq<GreetingView>) -> Seq<
    GreetingResponseView,
> {
    greetings.map_values(|g: GreetingView| response_for(recipient_name, g))
}

/// The answers for every stored greeting, group after group, each addressed to
/// the name it is filed under.
pub open spec fn all_responses(entries: Seq<(Seq<char>, Seq<GreetingView>)>) -> Seq<GreetingResponseView>
    decreases entries.len(),
{
    if entries.len() == 0 {
        seq![]
    } else {
        all_responses(entries.drop_last()) + responses_for(entries.last().0, entries.last().1)
    }
}

/// The contents of a sequence of answers.
pub open spec fn responses_view(responses: Seq<GreetingResponse>) -> Seq<GreetingResponseView> {
    responses.map_values(|r: GreetingResponse| r@)
}

/// The message that refuses an empty name in `EchoHello`.
pub open spec fn empty_name_message() -> Seq<char> {
    "please pass in a non-empty string for name"@
}

/// The message that answers a lookup of a name with no greetings.
pub open spec fn not_found_message() -> Seq<char> {
    "no greetings found for this name"@
}

/// Builds the answer for `greeting` addressed to `recipient_name`.
pub fn greeting_response_from_greeting(recipient_name: String, greeting: Greeting) -> (response:
    GreetingResponse)
    requires
        greeting.timestamp.wf(),
    ensures
        response@ == response_for(recipient_name@, greeting@),
{
    let mut message = greeting.sender_name.clone();
    message.append(" says ");
    message.append(greeting.message.as_str());
    GreetingResponse {
        id: greeting.id,
        message,
        sender_name: greeting.sender_name,
        recipient_name,
        received_at: Some(greeting.timestamp.to_proto()),
    }
}

/// `EchoHello`: refuses an empty name with `InvalidArgument`, and otherwise
/// answers "server says hello, <name>!".
pub fn echo_hello(name: &str) -> (reply: Result<String, ServiceError>)
    ensures
        match reply {
            Ok(text) => name@.len() > 0 && text@ == "server says hello, "@ + name@ + "!"@,
            Err(e) => name@.len() == 0 && e.code == GrpcCode::InvalidArgument && e.message@
                == empty_name_message(),
        },
{
    if name.is_empty() {
        return Err(
            ServiceError {
                code: GrpcCode::InvalidArgument,
                message: "please pass in a non-empty string for name",
            },
        );
    }
    let mut text = String::from_str("server says hello, ");
    text.append(name);
    text.append("!");
    Ok(text)
}

/// The message that answers a `SayGreeting` when the system clock reads outside
/// the range of instants that the store can stamp.
pub open spec fn clock_error_message() -> Seq<char> {
    "the system clock is outside the supported range"@
}

/// `SayGreeting`: files a greeting from `sender_name` with text `greeting` under
/// `recipient_name`, stamped with the current time; when the clock cannot be
/// read into a timestamp, files nothing and answers `Internal`.
pub fn say_greeting(
    repo: &mut GreetingsRepository,
    recipient_name: String,
    sender_name: String,
    greeting: String,
) -> (reply: Result<(), ServiceError>)
    requires
        old(repo).wf(),
        total_count(old(repo)@) < usize::MAX,
    ensures
        final(repo).wf(),
        match reply {
            Ok(()) => {
                &&& exists|timestamp: Timestamp|
                    timestamp.wf() && final(repo)@ == with_greeting(
                        old(repo)@,
                        recipient_name@,
                        #[trigger] stored_greeting(
                            old(repo).next_greeting_id(),
                            NewGreeting { recipient_name, sender_name, message: greeting },
                            timestamp,
                        ),
                    ) && lookup(final(repo)@, recipient_name@) == Some(
                        appended(
                            lookup(old(repo)@, recipient_name@),
                            stored_greeting(
                                old(repo).next_greeting_id(),
                                NewGreeting { recipient_name, sender_name, message: greeting },
                                timestamp,
                            ),
                        ),
                    )
                &&& final(repo).next_greeting_id() == nth_id(old(repo).next_greeting_id(), 1)
            },
            Err(e) => {
                &&& e.code == GrpcCode::Internal
                &&& e.message@ == clock_error_message()
                &&& final(repo)@ == old(repo)@
                &&& final(repo).next_greeting_id() == old(repo).next_greeting_id()
            },
        },
        forall|other: Seq<char>|
            other != recipient_name@ ==> #[trigger] lookup(final(repo)@, other) == lookup(
                old(repo)@,
                other,
            ),
{
    let name = recipient_name.clone();
    match repo.add_new_greeting(name.as_str(), NewGreeting { recipient_name, sender_name, message: greeting }) {
        Ok(()) => Ok(()),
        Err(_) => Err(
            ServiceError {
                code: GrpcCode::Internal,
                message: "the system clock is outside the supported range",
            },
        ),
    }
}

/// The answers for one group, addressed to `recipient_name`.
fn responses_for_group(recipient_name: &String, greetings: &Vec<Greeting>, responses: &mut Vec<GreetingResponse>)
    requires
        forall|j: int| 0 <= j < greetings@.len() ==> (#[trigger] greetings@[j]).timestamp.wf(),
    ensures
        responses_view(final(responses)@) == responses_view(old(responses)@) + responses_for(
            recipient_name@,
            greetings_view(greetings@),
        ),
{
    let ghost before = responses_view(responses@);
    let mut j: usize = 0;
    while j < greetings.len()
        invariant
            j <= greetings@.len(),
            forall|k: int| 0 <= k < greetings@.len() ==> (#[trigger] greetings@[k]).timestamp.wf(),
            responses_view(responses@) =~= before + responses_for(
                recipient_name@,
                greetings_view(greetings@).take(j as int),
            ),
        decreases greetings@.len() - j,
    {
        let response = greeting_response_from_greeting(recipient_name.clone(), greetings[j].clone());
        let ghost prev = responses@;
        responses.push(response);
        proof {
            assert(responses_view(responses@) =~= responses_view(prev).push(response@));
            assert(greetings_view(greetings@).take(j + 1) =~= greetings_view(greetings@).take(
                j as int,
            ).push(greetings@[j as int]@));
            assert(responses_for(recipient_name@, greetings_view(greetings@).take(j + 1))
                =~= responses_for(recipient_name@, greetings_view(greetings@).take(j as int)).push(
                response@,
            ));
        }
        j = j + 1;
    }
    assert(greetings_view(greetings@).take(j as int) =~= greetings_view(greetings@));
}

/// `GetGreetingsByName`: with no name, or an empty one, the answers for every
/// stored greeting; with a name that has greetings, the answers for those; with
/// a name that has none, `NotFound`.
pub fn get_greetings_by_name(repo: &GreetingsRepository, recipient_name: Option<&str>) -> (reply: Result<
    Vec<GreetingResponse>,
    ServiceError,
>)
    requires
        repo.wf(),
    ensures
        match recipient_name {
            Some(name) if name@.len() > 0 => match lookup(repo@, name@) {
                Some(greetings) => reply matches Ok(responses) && responses_view(responses@)
                    == responses_for(name@, greetings),
                None => reply matches Err(e) && e.code == GrpcCode::NotFound && e.message@
                    == not_found_message(),
            },
            _ => reply matches Ok(responses) && responses_view(responses@) == all_responses(repo@),
        },
{
    proof {
        repo.lemma_timestamps_valid();
    }
    match recipient_name {
        Some(name) if !name.is_empty() => {
            match repo.get_greetings_by_name(name) {
                Some(greetings) => {
                    let mut responses: Vec<GreetingResponse> = Vec::new();
                    let key = String::from_str(name);
                    proof {
                        assert(responses_view(responses@) =~= Seq::<GreetingResponseView>::empty());
                        lemma_group_timestamps(repo@, name@, greetings_view(greetings@));
                        assert forall|j: int| 0 <= j < greetings@.len() implies (
                        #[trigger] greetings@[j]).timestamp.wf() by {
                            assert(greetings_view(greetings@)[j] == greetings@[j]@);
                        }
                    }
                    responses_for_group(&key, greetings, &mut responses);
                    assert(responses_view(responses@) =~= responses_for(name@, greetings_view(greetings@)));
                    Ok(responses)
                },
                None => Err(
                    ServiceError {
                        code: GrpcCode::NotFound,
                        message: "no greetings found for this name",
                    },
                ),
            }
        },
        _ => {
            let groups = repo.recipients();
            let mut responses: Vec<GreetingResponse> = Vec::new();
            let mut i: usize = 0;
            while i < groups.len()
                invariant
                    i <= groups@.len(),
                    crate::db::entries_view(groups@) == repo@,
                    forall|a: int, b: int|
                        0 <= a < repo@.len() && 0 <= b < repo@[a].1.len() ==> (
                        #[trigger] repo@[a].1[b]).timestamp.wf(),
                    responses_view(responses@) =~= all_responses(repo@.take(i as int)),
                decreases groups@.len() - i,
            {
                let group: &RecipientGreetings = &groups[i];
                proof {
                    assert(repo@[i as int] == group@);
                    assert forall|j: int| 0 <= j < group.greetings@.len() implies (
                    #[trigger] group.greetings@[j]).timestamp.wf() by {
                        assert(repo@[i as int].1[j] == group.greetings@[j]@);
                    }
                }
                responses_for_group(&group.recipient_name, &group.greetings, &mut responses);
                proof {
                    assert(repo@.take(i + 1).drop_last() =~= repo@.take(i as int));
                }
                i = i + 1;
            }
            assert(repo@.take(i as int) =~= repo@);
            Ok(responses)
        },
    }
}

/// Answering for everyone gives one answer per stored greeting.
pub proof fn lemma_all_responses_len(entries: Seq<(Seq<char>, Seq<GreetingView>)>)
    ensures
        all_responses(entries).len() == total_count(entries),
    decreases entries.len(),
{
    if entries.len() > 0 {
        lemma_all_responses_len(entries.drop_last());
    }
}

/// The greetings that `lookup` finds carry valid timestamps.
proof fn lemma_group_timestamps(
    entries: Seq<(Seq<char>, Seq<GreetingView>)>,
    name: Seq<char>,
    greetings: Seq<GreetingView>,
)
    requires
        lookup(entries, name) == Some(greetings),
        forall|a: int, b: int|
            0 <= a < entries.len() && 0 <= b < entries[a].1.len() ==> (
            #[trigger] entries[a].1[b]).timestamp.wf(),
    ensures
        forall|j: int| 0 <= j < greetings.len() ==> (#[trigger] greetings[j]).timestamp.wf(),
{
    let k = crate::db::recipient_index(entries, name);
    assert forall|j: int| 0 <= j < greetings.len() implies (#[trigger] greetings[j]).timestamp.wf() by {
        assert(entries[k].1[j] == greetings[j]);
    }
}

/// The gRPC greeter service: a handle to the greetings store that its requests
/// work on.
pub struct GreeterService<R> {
    greetings_repo: Arc<R>,
}

impl<R> GreeterService<R> {
    /// The store handle the service holds.
    pub closed spec fn repo_spec(&self) -> Arc<R> {
        self.greetings_repo
    }

    /// A service working on `greetings_repo`.
    pub fn new(greetings_repo: Arc<R>) -> (service: Self)
        ensures
            service.repo_spec() == greetings_repo,
    {
        GreeterService { greetings_repo }
    }

    /// The store handle the service holds.
    pub fn greetings_repo(&self) -> (repo: &Arc<R>)
        ensures
            *repo == self.repo_spec(),
    {
        &self.greetings_repo
    }
}

impl<R: Default> Default for GreeterService<R> {
    /// A service working on a fresh handle holding `R`'s default value.
    fn default() -> (service: Self)
        ensures
            call_ensures(R::default, (), *service.repo_spec()),
    {
        GreeterService::new(Arc::new(R::default()))
    }
}

} // verus!
