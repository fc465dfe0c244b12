use vstd::prelude::*;
use crate::addr::{IpAddress, parse_ip_spec, parse_ip_exec, ip_text, ip_to_string};
use crate::text::chars_of;

verus! {

/// Whether chrono's `DateTime::from_timestamp(secs, 0)` gives a date.
pub uninterp spec fn chrono_secs_valid(secs: i64) -> bool;

/// Relies on `chrono::DateTime::from_timestamp`: whether `secs` seconds after
/// the Unix epoch is a date chrono can hold; a function of `secs` alone.
#[verifier::external_body]
fn chrono_accepts(secs: i64) -> (r: bool)
    ensures
        r == chrono_secs_valid(secs),
{
    chrono::DateTime::from_timestamp(secs, 0).is_some()
}

/// A UTC wall-clock instant, in whole seconds since the Unix epoch.
#[derive(Debug, Clone, Copy, PartialEq, Eq, Structural)]
pub struct Timestamp {
    pub secs: i64,
}

/// Reads a wire timestamp (seconds since the epoch, as sent); `None` when it
/// names no date that chrono can hold.
pub fn timestamp_from_wire(t: u64) -> (r: Option<Timestamp>)
    ensures
        chrono_secs_valid(t as i64) ==> r == Some(Timestamp { secs: t as i64 }),
        !chrono_secs_valid(t as i64) ==> r is None,
{
    let secs = t as i64;
    if chrono_accepts(secs) {
        Some(Timestamp { secs })
    } else {
        None
    }
}

/// The HTTP methods a controller can ask for.
#[derive(Debug, Clone, Copy, PartialEq, Eq, Structural)]
pub enum RequestMethod {
    Get,
    Post,
}

/// The wire code of `Get`.
pub const METHOD_GET: i32 = 0;
/// The wire code of `Post`.
pub const METHOD_POST: i32 = 1;

impl RequestMethod {
    /// The method of a wire code.
    pub fn from_wire(code: i32) -> (r: Option<RequestMethod>)
        ensures
            code == METHOD_GET ==> r == Some(RequestMethod::Get),
            code == METHOD_POST ==> r == Some(RequestMethod::Post),
            code != METHOD_GET && code != METHOD_POST ==> r is None,
    {
        if code == METHOD_GET {
            Some(RequestMethod::Get)
        } else if code == METHOD_POST {
            Some(RequestMethod::Post)
        } else {
            None
        }
    }

    /// The wire code of the method.
    pub fn to_wire(&self) -> (r: i32)
        ensures
            *self is Get ==> r == METHOD_GET,
            *self is Post ==> r == METHOD_POST,
    {
        match self {
            RequestMethod::Get => METHOD_GET,
            RequestMethod::Post => METHOD_POST,
        }
    }
}

/// One header of a command, name then value.
#[derive(Debug, Clone)]
pub struct HttpHeader(pub String, pub String);

/// The IP address that `s` spells, if any.
pub fn parse_ip(s: &str) -> (r: Option<IpAddress>)
    ensures
        r == parse_ip_spec(s@),
{
    let t = chars_of(s);
    parse_ip_exec(&t)
}

/// A request command as it comes over the wire.
#[derive(Debug, Clone)]
pub struct RequestCommandMsg {
    pub concurrent_count: u32,
    pub url: String,
    pub time: Option<u64>,
    pub ip: Option<String>,
    pub header: Vec<HttpHeader>,
    pub method: i32,
    pub body: Option<String>,
    pub timeout: Option<u64>,
    pub start_at: Option<u64>,
    pub abort_if_after: Option<u64>,
    pub enable_random: bool,
}

/// A shell command as it comes over the wire.
#[derive(Debug, Clone)]
pub struct ShellCommandMsg {
    pub shell: Option<String>,
    pub command: String,
    pub work_dir: Option<String>,
    pub timeout: Option<u64>,
    pub start_at: Option<u64>,
    pub abort_if_after: Option<u64>,
}

/// One command of a batch, as it comes over the wire.
#[derive(Debug, Clone)]
pub enum CommandMsg {
    Request(RequestCommandMsg),
    SingleRequest(RequestCommandMsg),
    Shell(ShellCommandMsg),
}

/// Why a command from a controller was refused.
#[derive(Debug, Clone, PartialEq, Eq, Structural)]
pub enum CommandError {
    InvalidIp,
    InvalidMethod,
    InvalidStartTime,
    InvalidAbortTime,
    NoCommand,
}

/// A flood of requests, or one diagnostic request, as a controller asks for it.
#[derive(Debug, Clone)]
pub struct RequestCommand {
    pub concurrent_count: u32,
    pub url: String,
    /// How long the run lasts, in seconds; unbounded when absent.
    pub time: Option<u64>,
    pub ip: Option<IpAddress>,
    pub header: Vec<HttpHeader>,
    pub method: RequestMethod,
    pub body: Option<String>,
    /// Per-request timeout in seconds.
    pub timeout: Option<u64>,
    pub start_at: Option<Timestamp>,
    pub abort_if_after: Option<Timestamp>,
    pub enable_random: bool,
    pub single_request: bool,
}

/// A shell command; accepted by the protocol, not run.
#[derive(Debug, Clone)]
pub struct ShellCommand {
    pub shell: Option<String>,
    pub command: String,
    pub work_dir: Option<String>,
    pub timeout: Option<u64>,
    pub start_at: Option<Timestamp>,
    pub abort_if_after: Option<Timestamp>,
}

/// The timestamp a wire field gives: absent stays absent.
pub open spec fn wire_time(t: Option<u64>) -> Option<Option<Timestamp>> {
    match t {
        None => Some(None),
        Some(x) => if chrono_secs_valid(x as i64) {
            Some(Some(Timestamp { secs: x as i64 }))
        } else {
            None
        },
    }
}

fn optional_time(t: Option<u64>) -> (r: Option<Option<Timestamp>>)
    ensures
        r == wire_time(t),
{
    match t {
        None => Some(None),
        Some(x) => match timestamp_from_wire(x) {
            Some(ts) => Some(Some(ts)),
            None => None,
        },
    }
}

/// The error, if any, that decoding a wire request command meets first:
/// the address, then the method, then the start time, then the abort time.
pub open spec fn request_msg_error(m: RequestCommandMsg) -> Option<CommandError> {
    if m.ip matches Some(s) && parse_ip_spec(s@) is None {
        Some(CommandError::InvalidIp)
    } else if m.method != METHOD_GET && m.method != METHOD_POST {
        Some(CommandError::InvalidMethod)
    } else if wire_time(m.start_at) is None {
        Some(CommandError::InvalidStartTime)
    } else if wire_time(m.abort_if_after) is None {
        Some(CommandError::InvalidAbortTime)
    } else {
        None
    }
}

/// The command that a valid wire request command decodes to.
pub open spec fn decoded_request(m: RequestCommandMsg, single_request: bool) -> RequestCommand {
    RequestCommand {
        concurrent_count: m.concurrent_count,
        url: m.url,
        time: m.time,
        ip: match m.ip {
            Some(s) => parse_ip_spec(s@),
            None => None,
        },
        header: m.header,
        method: if m.method == METHOD_GET {
            RequestMethod::Get
        } else {
            RequestMethod::Post
        },
        body: m.body,
        timeout: m.timeout,
        start_at: wire_time(m.start_at)->Some_0,
        abort_if_after: wire_time(m.abort_if_after)->Some_0,
        enable_random: m.enable_random,
        single_request,
    }
}

impl RequestCommand {
    /// Decodes a wire request command; `single_request` marks a one-shot
    /// diagnostic command.
    pub fn try_from(m: RequestCommandMsg, single_request: bool) -> (r: Result<RequestCommand, CommandError>)
        ensures
            request_msg_error(m) matches Some(e) ==> r == Err::<RequestCommand, CommandError>(e),
            request_msg_error(m) is None ==> r == Ok::<RequestCommand, CommandError>(
                decoded_request(m, single_request),
            ),
    {
        let ip = match &m.ip {
            Some(s) => match parse_ip(s.as_str()) {
                Some(a) => Some(a),
                None => {
                    return Err(CommandError::InvalidIp);
                },
            },
            None => None,
        };
        let method = match RequestMethod::from_wire(m.method) {
            Some(x) => x,
            None => {
                return Err(CommandError::InvalidMethod);
            },
        };
        let start_at = match optional_time(m.start_at) {
            Some(t) => t,
            None => {
                return Err(CommandError::InvalidStartTime);
            },
        };
        let abort_if_after = match optional_time(m.abort_if_after) {
            Some(t) => t,
            None => {
                return Err(CommandError::InvalidAbortTime);
            },
        };
        Ok(RequestCommand {
            concurrent_count: m.concurrent_count,
            url: m.url,
            time: m.time,
            ip,
            header: m.header,
            method,
            body: m.body,
            timeout: m.timeout,
            start_at,
            abort_if_after,
            enable_random: m.enable_random,
            single_request,
        })
    }
}

/// The error, if any, that decoding a wire shell command meets first.
pub open spec fn shell_msg_error(m: ShellCommandMsg) -> Option<CommandError> {
    if wire_time(m.start_at) is None {
        Some(CommandError::InvalidStartTime)
    } else if wire_time(m.abort_if_after) is None {
        Some(CommandError::InvalidAbortTime)
    } else {
        None
    }
}

/// The command that a valid wire shell command decodes to.
pub open spec fn decoded_shell(m: ShellCommandMsg) -> ShellCommand {
    ShellCommand {
        shell: m.shell,
        command: m.command,
        work_dir: m.work_dir,
        timeout: m.timeout,
        start_at: wire_time(m.start_at)->Some_0,
        abort_if_after: wire_time(m.abort_if_after)->Some_0,
    }
}

impl ShellCommand {
    /// Decodes a wire shell command.
    pub fn try_from(m: ShellCommandMsg) -> (r: Result<ShellCommand, CommandError>)
        ensures
            shell_msg_error(m) matches Some(e) ==> r == Err::<ShellCommand, CommandError>(e),
            shell_msg_error(m) is None ==> r == Ok::<ShellCommand, CommandError>(decoded_shell(m)),
    {
        let start_at = match optional_time(m.start_at) {
            Some(t) => t,
            None => {
                return Err(CommandError::InvalidStartTime);
            },
        };
        let abort_if_after = match optional_time(m.abort_if_after) {
            Some(t) => t,
            None => {
                return Err(CommandError::InvalidAbortTime);
            },
        };
        Ok(ShellCommand {
            shell: m.shell,
            command: m.command,
            work_dir: m.work_dir,
            timeout: m.timeout,
            start_at,
            abort_if_after,
        })
    }
}

/// A command of a batch.
#[derive(Debug, Clone)]
pub enum RemoteCommand {
    Request(RequestCommand),
    Shell(ShellCommand),
}

/// The error, if any, that decoding a wire command meets.
pub open spec fn command_msg_error(m: Option<CommandMsg>) -> Option<CommandError> {
    match m {
        None => Some(CommandError::NoCommand),
        Some(CommandMsg::Request(r)) => request_msg_error(r),
        Some(CommandMsg::SingleRequest(r)) => request_msg_error(r),
        Some(CommandMsg::Shell(s)) => shell_msg_error(s),
    }
}

/// The command that a valid wire command decodes to.
pub open spec fn decoded(m: Option<CommandMsg>) -> RemoteCommand {
    match m {
        Some(CommandMsg::Request(r)) => RemoteCommand::Request(decoded_request(r, false)),
        Some(CommandMsg::SingleRequest(r)) => RemoteCommand::Request(decoded_request(r, true)),
        Some(CommandMsg::Shell(s)) => RemoteCommand::Shell(decoded_shell(s)),
        None => arbitrary(),
    }
}

impl RemoteCommand {
    pub open spec fn start_at_spec(&self) -> Option<Timestamp> {
        match self {
            RemoteCommand::Request(r) => r.start_at,
            RemoteCommand::Shell(s) => s.start_at,
        }
    }

    pub open spec fn abort_if_after_spec(&self) -> Option<Timestamp> {
        match self {
            RemoteCommand::Request(r) => r.abort_if_after,
            RemoteCommand::Shell(s) => s.abort_if_after,
        }
    }

    /// When the command should start, if it is scheduled.
    pub fn start_at(&self) -> (r: Option<Timestamp>)
        ensures
            r == self.start_at_spec(),
    {
        match self {
            RemoteCommand::Request(r) => r.start_at,
            RemoteCommand::Shell(s) => s.start_at,
        }
    }

    /// The instant after which the command must not start.
    pub fn abort_if_after(&self) -> (r: Option<Timestamp>)
        ensures
            r == self.abort_if_after_spec(),
    {
        match self {
            RemoteCommand::Request(r) => r.abort_if_after,
            RemoteCommand::Shell(s) => s.abort_if_after,
        }
    }

    /// Decodes a wire command; a missing one is refused.
    pub fn try_from(m: Option<CommandMsg>) -> (r: Result<RemoteCommand, CommandError>)
        ensures
            command_msg_error(m) matches Some(e) ==> r == Err::<RemoteCommand, CommandError>(e),
            command_msg_error(m) is None ==> r == Ok::<RemoteCommand, CommandError>(decoded(m)),
    {
        match m {
            None => Err(CommandError::NoCommand),
            Some(CommandMsg::Request(r)) => match RequestCommand::try_from(r, false) {
                Ok(c) => Ok(RemoteCommand::Request(c)),
                Err(e) => Err(e),
            },
            Some(CommandMsg::SingleRequest(r)) => match RequestCommand::try_from(r, true) {
                Ok(c) => Ok(RemoteCommand::Request(c)),
                Err(e) => Err(e),
            },
            Some(CommandMsg::Shell(s)) => match ShellCommand::try_from(s) {
                Ok(c) => Ok(RemoteCommand::Shell(c)),
                Err(e) => Err(e),
            },
        }
    }
}

/// Whether a command may run at `now`: it has no scheduled start, and its
/// abort time, if any, is still ahead.
pub open spec fn eligible(c: RemoteCommand, now: Timestamp) -> bool {
    &&& c.start_at_spec() is None
    &&& match c.abort_if_after_spec() {
        Some(t) => t.secs > now.secs,
        None => true,
    }
}

/// Whether the command may run at `now`.
pub fn is_eligible(c: &RemoteCommand, now: Timestamp) -> (r: bool)
    ensures
        r == eligible(*c, now),
{
    if c.start_at().is_some() {
        return false;
    }
    match c.abort_if_after() {
        Some(t) => t.secs > now.secs,
        None => true,
    }
}

/// A batch of commands meant to begin together.
#[derive(Debug, Clone, Default)]
pub struct ParallelCommands {
    pub commands: Vec<RemoteCommand>,
}

impl ParallelCommands {
    /// Decodes a wire batch; the first refused command refuses the batch.
    pub fn try_from(ms: Vec<Option<CommandMsg>>) -> (r: Result<ParallelCommands, CommandError>)
        ensures
            (forall|i: int| 0 <= i < ms@.len() ==> command_msg_error(#[trigger] ms@[i]) is None) <==> r is Ok,
            r matches Ok(p) ==> p.commands@ == ms@.map_values(|m: Option<CommandMsg>| decoded(m)),
            r matches Err(e) ==> exists|i: int| 0 <= i < ms@.len() && command_msg_error(#[trigger] ms@[i]) == Some(e),
    {
        let ghost orig = ms@;
        let n = ms.len();
        let mut commands: Vec<RemoteCommand> = Vec::new();
        let mut rest = ms;
        let mut i: usize = 0;
        while rest.len() > 0
            invariant
                orig == ms@,
                n == orig.len(),
                rest@ == orig.skip(i as int),
                i <= orig.len(),
                commands@ == orig.take(i as int).map_values(|m: Option<CommandMsg>| decoded(m)),
                forall|k: int| 0 <= k < i ==> command_msg_error(#[trigger] orig[k]) is None,
            decreases rest@.len(),
        {
            let ghost before = rest@;
            let m = rest.remove(0);
            assert(m == orig[i as int]);
            assert(rest@ =~= orig.skip(i + 1));
            match RemoteCommand::try_from(m) {
                Ok(c) => {
                    commands.push(c);
                    assert(commands@ =~= orig.take(i + 1).map_values(|m: Option<CommandMsg>| decoded(m)));
                },
                Err(e) => {
                    assert(command_msg_error(orig[i as int]) == Some(e));
                    assert(command_msg_error(orig[i as int]) is Some);
                    return Err(e);
                },
            }
            i = i + 1;
        }
        assert(i == orig.len());
        assert(orig.take(i as int) =~= orig);
        Ok(ParallelCommands { commands })
    }
}


/// The headers as name-value pairs of text.
pub open spec fn http_headers_view(v: Seq<HttpHeader>) -> Seq<(Seq<char>, Seq<char>)> {
    v.map_values(|h: HttpHeader| (h.0@, h.1@))
}

fn copy_headers(v: &Vec<HttpHeader>) -> (r: Vec<HttpHeader>)
    ensures
        http_headers_view(r@) == http_headers_view(v@),
{
    let mut r: Vec<HttpHeader> = Vec::new();
    let mut i: usize = 0;
    while i < v.len()
        invariant
            i <= v@.len(),
            http_headers_view(r@) == http_headers_view(v@.take(i as int)),
        decreases v@.len() - i,
    {
        let ghost before = r@;
        r.push(HttpHeader(v[i].0.clone(), v[i].1.clone()));
        assert(http_headers_view(r@) =~= http_headers_view(before).push((v@[i as int].0@, v@[i as int].1@)));
        assert(v@.take(i + 1) =~= v@.take(i as int).push(v@[i as int]));
        assert(http_headers_view(v@.take(i + 1)) =~= http_headers_view(v@.take(i as int)).push(
            (v@[i as int].0@, v@[i as int].1@),
        ));
        i = i + 1;
    }
    assert(v@.take(v@.len() as int) =~= v@);
    r
}

/// The wire seconds of a timestamp.
pub open spec fn wire_secs(t: Option<Timestamp>) -> Option<u64> {
    match t {
        Some(x) => Some(x.secs as u64),
        None => None,
    }
}

fn secs_to_wire(t: Option<Timestamp>) -> (r: Option<u64>)
    ensures
        r == wire_secs(t),
{
    match t {
        Some(x) => Some(x.secs as u64),
        None => None,
    }
}

fn copy_text(o: &Option<String>) -> (r: Option<String>)
    ensures
        r == *o,
{
    match o {
        Some(s) => Some(s.clone()),
        None => None,
    }
}

/// Whether `m` is the wire form of request command `c`.
pub open spec fn encodes_request(m: RequestCommandMsg, c: RequestCommand) -> bool {
    &&& m.concurrent_count == c.concurrent_count
    &&& m.url == c.url
    &&& m.time == c.time
    &&& (c.ip matches Some(a) ==> (m.ip matches Some(t) && t@ == ip_text(a)))
    &&& (c.ip is None ==> m.ip is None)
    &&& http_headers_view(m.header@) == http_headers_view(c.header@)
    &&& (c.method is Get ==> m.method == METHOD_GET)
    &&& (c.method is Post ==> m.method == METHOD_POST)
    &&& m.body == c.body
    &&& m.timeout == c.timeout
    &&& m.start_at == wire_secs(c.start_at)
    &&& m.abort_if_after == wire_secs(c.abort_if_after)
    &&& m.enable_random == c.enable_random
}

/// Whether `m` is the wire form of shell command `c`.
pub open spec fn encodes_shell(m: ShellCommandMsg, c: ShellCommand) -> bool {
    &&& m.shell == c.shell
    &&& m.command == c.command
    &&& m.work_dir == c.work_dir
    &&& m.timeout == c.timeout
    &&& m.start_at == wire_secs(c.start_at)
    &&& m.abort_if_after == wire_secs(c.abort_if_after)
}

impl RequestCommand {
    /// The wire form of the command.
    pub fn to_msg(&self) -> (r: RequestCommandMsg)
        ensures
            encodes_request(r, *self),
    {
        let ip = match self.ip {
            Some(a) => Some(ip_to_string(a)),
            None => None,
        };
        RequestCommandMsg {
            concurrent_count: self.concurrent_count,
            url: self.url.clone(),
            time: self.time,
            ip,
            header: copy_headers(&self.header),
            method: self.method.to_wire(),
            body: copy_text(&self.body),
            timeout: self.timeout,
            start_at: secs_to_wire(self.start_at),
            abort_if_after: secs_to_wire(self.abort_if_after),
            enable_random: self.enable_random,
        }
    }
}

impl ShellCommand {
    /// The wire form of the command.
    pub fn to_msg(&self) -> (r: ShellCommandMsg)
        ensures
            encodes_shell(r, *self),
    {
        ShellCommandMsg {
            shell: copy_text(&self.shell),
            command: self.command.clone(),
            work_dir: copy_text(&self.work_dir),
            timeout: self.timeout,
            start_at: secs_to_wire(self.start_at),
            abort_if_after: secs_to_wire(self.abort_if_after),
        }
    }
}

impl RemoteCommand {
    /// The wire form of the command; a one-shot request goes as `SingleRequest`.
    pub fn to_msg(&self) -> (r: CommandMsg)
        ensures
            *self matches RemoteCommand::Request(c) ==> (if c.single_request {
                r matches CommandMsg::SingleRequest(m) && encodes_request(m, c)
            } else {
                r matches CommandMsg::Request(m) && encodes_request(m, c)
            }),
            *self matches RemoteCommand::Shell(c) ==> (r matches CommandMsg::Shell(m) && encodes_shell(m, c)),
    {
        match self {
            RemoteCommand::Request(c) => {
                if c.single_request {
                    CommandMsg::SingleRequest(c.to_msg())
                } else {
                    CommandMsg::Request(c.to_msg())
                }
            },
            RemoteCommand::Shell(c) => CommandMsg::Shell(c.to_msg()),
        }
    }
}

} // verus!
