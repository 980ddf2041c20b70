//! The protocol between collector and dashboard: a request, a reply, and the
//! frame that carries either.
//!
//! One frame is a 32-bit little-endian length and a body of that length. No reply
//! carries a token or a configuration value.

use vstd::prelude::*;
use vstd::slice::{slice_subrange, slice_to_vec};

use crate::models::timeline::{Timeline, TimelineQuery};
use crate::models::{BusyPoint, FleetStatus, GhView, HistPoint, HostPoint, JobRow, RunnerState};

pub mod client;

verus! {

/// Version of the wire protocol.
pub const VERSION: u16 = 7;

/// The longest body that a frame may carry.
pub const MAX_FRAME: u32 = 1_048_576;

/// What a dashboard asks of the collector. Queries need no authorization;
/// mutations are reached only past it.
#[derive(Debug, Clone)]
pub enum Request {
    /// Version handshake.
    Hello { client: u16 },
    /// A read.
    Query(Query),
    /// A configuration write.
    Mutate(Mutation),
}

/// The reads.
#[derive(Debug, Clone)]
pub enum Query {
    HostSeries { limit: usize },
    BusySeries { limit: usize },
    RunnerHistory { dir: String, limit: usize },
    RecentJobs { limit: usize },
    LatestJob { runner_name: String },
    LatestApiRunners,
    /// The fleet's verdict with what it rests on.
    FleetStatus,
    /// The oldest sample still held.
    Retention,
    /// What changed in a window.
    Timeline(TimelineQuery),
    /// Persisted liveness edges.
    RunnerStates,
    /// The orgs with a configured token: presence only.
    ConfiguredTokenOrgs,
}

/// The configuration writes.
#[derive(Debug, Clone)]
pub enum Mutation {
    /// Toggle the Prometheus pull endpoint.
    SetMetricsPull { enabled: bool, addr: String },
    /// Add or replace the token of an org.
    AddOrgToken { org: String, token: String },
    /// Remove an org's token and forget the org.
    RemoveOrgToken { org: String },
}

impl Mutation {
    /// The audit label: which write, never what it carries.
    pub open spec fn action_word(self) -> Seq<char> {
        match self {
            Mutation::SetMetricsPull { .. } => "set_metrics_pull"@,
            Mutation::AddOrgToken { .. } => "add_org_token"@,
            Mutation::RemoveOrgToken { .. } => "remove_org_token"@,
        }
    }

    /// A stable audit label without payload.
    pub fn action(&self) -> (r: &'static str)
        ensures
            r@ == self.action_word(),
    {
        match self {
            Mutation::SetMetricsPull { .. } => "set_metrics_pull",
            Mutation::AddOrgToken { .. } => "add_org_token",
            Mutation::RemoveOrgToken { .. } => "remove_org_token",
        }
    }
}

/// GitHub's view of one runner, with the runner's key.
#[derive(Debug, Clone, PartialEq, Eq)]
pub struct ApiRow {
    pub agent_id: i64,
    pub org: String,
    pub view: GhView,
}

/// What the collector replies.
#[derive(Debug, Clone)]
pub enum Response {
    Hello { server: u16, version: String },
    VersionMismatch { server: u16 },
    HostSeries(Vec<HostPoint>),
    BusySeries(Vec<BusyPoint>),
    RunnerHistory(Vec<HistPoint>),
    RecentJobs(Vec<JobRow>),
    LatestJob(Option<JobRow>),
    LatestApiRunners(Vec<ApiRow>),
    FleetStatus(Box<FleetStatus>),
    Retention { earliest_ts: Option<i64> },
    Timeline(Box<Timeline>),
    RunnerStates(Vec<RunnerState>),
    ConfiguredTokenOrgs(Vec<String>),
    /// A mutation was authorized and persisted.
    Mutated,
    /// A mutation was refused.
    Denied,
    Error(String),
}

/// Why a frame was refused.
#[derive(Debug, Clone, Copy, PartialEq, Eq, Structural)]
pub enum FrameError {
    /// The body is, or claims to be, longer than a frame may carry.
    TooLarge,
    /// The bytes end before the frame does.
    Truncated,
}

/// The four bytes of a length, least significant first.
pub open spec fn le_bytes(n: int) -> Seq<u8> {
    seq![
        (n % 256) as u8,
        (n / 256 % 256) as u8,
        (n / 65_536 % 256) as u8,
        (n / 16_777_216 % 256) as u8,
    ]
}

/// The length that four bytes give, least significant first.
pub open spec fn le_value(b: Seq<u8>) -> int {
    b[0] as int + 256 * b[1] as int + 65_536 * b[2] as int + 16_777_216 * b[3] as int
}

/// The frame of a body.
pub open spec fn frame(body: Seq<u8>) -> Seq<u8> {
    le_bytes(body.len() as int) + body
}

/// The body of the frame that `bytes` start with.
pub open spec fn unframed(bytes: Seq<u8>) -> Result<Seq<u8>, FrameError> {
    if bytes.len() < 4 {
        Err(FrameError::Truncated)
    } else if le_value(bytes) > MAX_FRAME {
        Err(FrameError::TooLarge)
    } else if bytes.len() - 4 < le_value(bytes) {
        Err(FrameError::Truncated)
    } else {
        Ok(bytes.subrange(4, 4 + le_value(bytes)))
    }
}

/// The length that a frame's first four bytes announce, refused where it is more
/// than a frame may carry: before anything is allocated for it.
pub fn frame_len(header: [u8; 4]) -> (r: Result<u32, FrameError>)
    ensures
        r is Ok <==> le_value(header@) <= MAX_FRAME,
        r matches Ok(n) ==> n == le_value(header@),
        r matches Err(e) ==> e == FrameError::TooLarge,
{
    let n: u32 = header[0] as u32 + 256 * (header[1] as u32) + 65_536 * (header[2] as u32)
        + 16_777_216 * (header[3] as u32);
    if n > MAX_FRAME {
        Err(FrameError::TooLarge)
    } else {
        Ok(n)
    }
}

/// Frame a body: its length, then the body. Refused where the body is longer than
/// a frame may carry.
pub fn write_frame(body: &[u8]) -> (r: Result<Vec<u8>, FrameError>)
    ensures
        r is Ok <==> body@.len() <= MAX_FRAME,
        r matches Ok(out) ==> out@ == frame(body@),
        r matches Err(e) ==> e == FrameError::TooLarge,
{
    if body.len() > MAX_FRAME as usize {
        return Err(FrameError::TooLarge);
    }
    let n: u32 = body.len() as u32;
    let mut out: Vec<u8> = Vec::new();
    out.push((n % 256) as u8);
    out.push((n / 256 % 256) as u8);
    out.push((n / 65_536 % 256) as u8);
    out.push((n / 16_777_216 % 256) as u8);
    assert(out@ =~= le_bytes(body@.len() as int));
    let mut i: usize = 0;
    while i < body.len()
        invariant
            i <= body@.len(),
            out@ == le_bytes(body@.len() as int) + body@.take(i as int),
        decreases body@.len() - i,
    {
        out.push(body[i]);
        assert(body@.take(i + 1) =~= body@.take(i as int).push(body@[i as int]));
        assert(out@ =~= le_bytes(body@.len() as int) + body@.take(i + 1));
        i = i + 1;
    }
    assert(body@.take(i as int) =~= body@);
    Ok(out)
}

/// Read the body of the frame that `bytes` start with.
pub fn read_frame(bytes: &[u8]) -> (r: Result<Vec<u8>, FrameError>)
    ensures
        r is Ok <==> unframed(bytes@) is Ok,
        r matches Ok(body) ==> unframed(bytes@) == Ok::<Seq<u8>, FrameError>(body@),
        r matches Err(e) ==> unframed(bytes@) == Err::<Seq<u8>, FrameError>(e),
{
    if bytes.len() < 4 {
        return Err(FrameError::Truncated);
    }
    let header: [u8; 4] = [bytes[0], bytes[1], bytes[2], bytes[3]];
    match frame_len(header) {
        Err(e) => Err(e),
        Ok(n) => {
            if bytes.len() - 4 < n as usize {
                Err(FrameError::Truncated)
            } else {
                Ok(slice_to_vec(slice_subrange(bytes, 4, 4 + n as usize)))
            }
        },
    }
}

proof fn le_round_trips(n: int)
    requires
        0 <= n < 0x1_0000_0000,
    ensures
        le_value(le_bytes(n)) == n,
{
}

/// A frame reads back as the body it was made of, whatever follows it.
pub proof fn frame_round_trips(body: Seq<u8>, rest: Seq<u8>)
    requires
        body.len() <= MAX_FRAME,
    ensures
        unframed(frame(body) + rest) == Ok::<Seq<u8>, FrameError>(body),
{
    let bytes = frame(body) + rest;
    le_round_trips(body.len() as int);
    assert(le_value(bytes) == le_value(le_bytes(body.len() as int)));
    assert(bytes.subrange(4, 4 + body.len() as int) =~= body);
}

/// A frame that lost its tail is refused, never read as a shorter body.
pub proof fn cut_frames_are_refused(body: Seq<u8>, kept: int)
    requires
        body.len() <= MAX_FRAME,
        0 <= kept < frame(body).len(),
    ensures
        unframed(frame(body).take(kept)) == Err::<Seq<u8>, FrameError>(FrameError::Truncated),
{
    let bytes = frame(body).take(kept);
    if kept >= 4 {
        le_round_trips(body.len() as int);
        assert(le_value(bytes) == le_value(le_bytes(body.len() as int)));
    }
}

/// Each change is called by its own name.
pub proof fn changes_are_called_by_their_names(m: Mutation)
    ensures
        m is SetMetricsPull <==> m.action_word() == "set_metrics_pull"@,
        m is AddOrgToken <==> m.action_word() == "add_org_token"@,
        m is RemoveOrgToken <==> m.action_word() == "remove_org_token"@,
{
    reveal_strlit("set_metrics_pull");
    reveal_strlit("add_org_token");
    reveal_strlit("remove_org_token");
    assert("set_metrics_pull"@[0] == 's' && "add_org_token"@[0] == 'a' && "remove_org_token"@[0]
        == 'r');
}

/// A frame is its body behind four bytes that hold the body's length, the least
/// significant first.
pub proof fn a_frame_starts_with_its_length(body: Seq<u8>)
    requires
        body.len() <= MAX_FRAME,
    ensures
        frame(body).len() == body.len() + 4,
        body.len() == frame(body)[0] as int + 0x100 * frame(body)[1] as int + 0x1_0000 * frame(
            body,
        )[2] as int + 0x100_0000 * frame(body)[3] as int,
        forall|i: int| 0 <= i < body.len() ==> frame(body)[i + 4] == #[trigger] body[i],
{
}

} // verus!
