use vstd::prelude::*;
use crate::command::{
    RemoteCommand, RequestCommand, ParallelCommands, Timestamp, CommandMsg, CommandError, eligible,
    is_eligible, timestamp_from_wire, command_msg_error, decoded,
};
use crate::statistic::{StatusCounter, RequestCommandResultItem};

verus! {

/// Default per-request timeout of a command, in seconds.
pub const DEFAULT_TIMEOUT_SECS: u64 = 10;

/// What the agent is doing.
#[derive(Debug, Clone, Copy, PartialEq, Eq, Structural)]
pub enum ClientStatus {
    Idle,
    Executing { id: u64 },
    /// Reserved for commands with a later start; no transition enters it.
    Waiting { id: u64, waiting_until: Timestamp },
}

/// The coarse status reported in a heartbeat.
#[derive(Debug, Clone, Copy, PartialEq, Eq, Structural)]
pub enum HeartbeatStatus {
    Idle,
    Requesting,
    RequestPreparing,
}

/// The coarse status of `s`.
pub open spec fn heartbeat_status_of(s: ClientStatus) -> HeartbeatStatus {
    match s {
        ClientStatus::Idle => HeartbeatStatus::Idle,
        ClientStatus::Executing { .. } => HeartbeatStatus::Requesting,
        ClientStatus::Waiting { .. } => HeartbeatStatus::RequestPreparing,
    }
}

impl ClientStatus {
    /// The id of the run under way, if any.
    pub fn current_command_id(&self) -> (r: Option<u64>)
        ensures
            *self is Idle ==> r is None,
            *self matches ClientStatus::Executing { id } ==> r == Some(id),
            *self matches ClientStatus::Waiting { id, .. } ==> r == Some(id),
    {
        match self {
            ClientStatus::Idle => None,
            ClientStatus::Executing { id } => Some(*id),
            ClientStatus::Waiting { id, .. } => Some(*id),
        }
    }

    /// The status as a heartbeat reports it.
    pub fn heartbeat_status(&self) -> (r: HeartbeatStatus)
        ensures
            r == heartbeat_status_of(*self),
    {
        match self {
            ClientStatus::Idle => HeartbeatStatus::Idle,
            ClientStatus::Executing { .. } => HeartbeatStatus::Requesting,
            ClientStatus::Waiting { .. } => HeartbeatStatus::RequestPreparing,
        }
    }
}

/// A result buffered for the next heartbeat.
#[derive(Debug, Clone)]
pub enum CommandResultItem {
    /// A snapshot of the bucket counters.
    Request(RequestCommandResultItem),
    /// The outcome of a one-shot request.
    SingleRequest { code: u32, content: String, timestamp: u64 },
}

/// What the runtime must start for one eligible request command.
#[derive(Debug, Clone)]
pub enum WorkerAction {
    /// Send one request and buffer its result.
    SingleRequest(RequestCommand),
    /// Start the command's workers with the given per-request timeout; stop
    /// them after `stop_after` seconds when present.
    Flood { command: RequestCommand, timeout_secs: u64, stop_after: Option<u64> },
}

/// The action that an eligible command asks for, if it asks for one.
pub open spec fn action_of(c: RemoteCommand) -> Option<WorkerAction> {
    match c {
        RemoteCommand::Shell(_) => None,
        RemoteCommand::Request(r) => if r.single_request {
            Some(WorkerAction::SingleRequest(r))
        } else {
            Some(
                WorkerAction::Flood {
                    command: r,
                    timeout_secs: match r.timeout {
                        Some(t) => t,
                        None => DEFAULT_TIMEOUT_SECS,
                    },
                    stop_after: r.time,
                },
            )
        },
    }
}

/// The actions for a batch at `now`: one per eligible request command, in order.
pub open spec fn actions_of(cs: Seq<RemoteCommand>, now: Timestamp) -> Seq<WorkerAction>
    decreases cs.len(),
{
    if cs.len() == 0 {
        Seq::empty()
    } else {
        let rest = actions_of(cs.drop_first(), now);
        if eligible(cs[0], now) && action_of(cs[0]) is Some {
            seq![action_of(cs[0])->Some_0] + rest
        } else {
            rest
        }
    }
}

/// The operation a controller asks for next.
#[derive(Debug, Clone)]
pub enum NextOperation {
    KeepIdle,
    ContinueCurrent,
    StopCurrent,
    StopAndExecute(Vec<Option<CommandMsg>>),
    Execute(Vec<Option<CommandMsg>>),
}

/// A controller's answer to a heartbeat.
#[derive(Debug, Clone)]
pub struct ServerResponse {
    pub server_timestamp: u64,
    pub command_id: Option<u64>,
    pub next_operation: Option<NextOperation>,
}

/// The report sent in a heartbeat.
#[derive(Debug, Clone)]
pub struct HeartBeat {
    pub timestamp: u64,
    pub status: HeartbeatStatus,
    pub current_command_id: Option<u64>,
    pub command_result: Vec<CommandResultItem>,
    pub ip: String,
}

/// What the runtime must do after a controller's answer.
#[derive(Debug, Clone)]
pub struct Directive {
    /// Stop every worker of the current run first.
    pub stop: bool,
    /// Then start these.
    pub start: Vec<WorkerAction>,
    /// A command of the batch was refused; nothing of the batch was started.
    pub refused: Option<CommandError>,
}

/// Why a controller's answer was refused as a whole.
#[derive(Debug, Clone, Copy, PartialEq, Eq, Structural)]
pub enum HeartbeatError {
    InvalidServerTimestamp,
}

/// The state of the command-and-control side: status, clock offset and the
/// results waiting for the next heartbeat.
pub struct ServerCommandExecutor {
    status: ClientStatus,
    time_diff: i128,
    results: Vec<CommandResultItem>,
}

impl ServerCommandExecutor {
    pub closed spec fn status_spec(&self) -> ClientStatus {
        self.status
    }

    pub closed spec fn time_diff_spec(&self) -> int {
        self.time_diff as int
    }

    pub closed spec fn pending(&self) -> Seq<CommandResultItem> {
        self.results@
    }

    /// Idle, with no clock offset and no result pending.
    pub fn new() -> (r: ServerCommandExecutor)
        ensures
            r.status_spec() is Idle,
            r.time_diff_spec() == 0,
            r.pending().len() == 0,
    {
        ServerCommandExecutor { status: ClientStatus::Idle, time_diff: 0, results: Vec::new() }
    }

    pub fn status(&self) -> (r: ClientStatus)
        ensures
            r == self.status_spec(),
    {
        self.status
    }

    /// The last recorded offset of the controller's clock over the local one, in seconds.
    pub fn time_diff(&self) -> (r: i128)
        ensures
            r == self.time_diff_spec(),
    {
        self.time_diff
    }

    /// Records the offset `server_time - local_time`.
    pub fn clock_sync(&mut self, server_time: Timestamp, local_time: Timestamp)
        ensures
            final(self).time_diff_spec() == server_time.secs - local_time.secs,
            final(self).status_spec() == old(self).status_spec(),
            final(self).pending() == old(self).pending(),
    {
        self.time_diff = server_time.secs as i128 - local_time.secs as i128;
    }

    /// Stops the current run: the status goes back to `Idle`. Safe when nothing runs.
    pub fn shutdown_workers(&mut self)
        ensures
            final(self).status_spec() is Idle,
            final(self).time_diff_spec() == old(self).time_diff_spec(),
            final(self).pending() == old(self).pending(),
    {
        self.status = ClientStatus::Idle;
    }

    /// Goes back to `Idle` once no worker of the run is left.
    pub fn check_idle(&mut self, live_workers: usize)
        ensures
            live_workers == 0 ==> final(self).status_spec() is Idle,
            live_workers != 0 ==> final(self).status_spec() == old(self).status_spec(),
            final(self).time_diff_spec() == old(self).time_diff_spec(),
            final(self).pending() == old(self).pending(),
    {
        if live_workers == 0 {
            self.status = ClientStatus::Idle;
        }
    }

    /// Buffers a result for the next heartbeat.
    pub fn push_result(&mut self, item: CommandResultItem)
        ensures
            final(self).pending() == old(self).pending().push(item),
            final(self).status_spec() == old(self).status_spec(),
            final(self).time_diff_spec() == old(self).time_diff_spec(),
    {
        self.results.push(item);
    }

    /// Hands out the buffered results followed by a snapshot of `counters`
    /// stamped `timestamp`, and empties the buffer.
    pub fn pop_results(&mut self, counters: &StatusCounter, timestamp: u64) -> (r: Vec<CommandResultItem>)
        ensures
            r@.len() == old(self).pending().len() + 1,
            r@.take(old(self).pending().len() as int) == old(self).pending(),
            r@.last() matches CommandResultItem::Request(s) && s == counters.get_grpc_spec(timestamp),
            final(self).pending().len() == 0,
            final(self).status_spec() == old(self).status_spec(),
            final(self).time_diff_spec() == old(self).time_diff_spec(),
    {
        let mut r: Vec<CommandResultItem> = Vec::new();
        std::mem::swap(&mut r, &mut self.results);
        let ghost before = r@;
        r.push(CommandResultItem::Request(counters.get_grpc(timestamp)));
        assert(r@.take(before.len() as int) =~= before);
        r
    }

    /// Puts back the results of a heartbeat that could not be delivered:
    /// `sent` is its result list, whose last item is the counters snapshot,
    /// which is dropped since the next heartbeat takes a fresh one. The
    /// buffered results go back in front of any that arrived since.
    pub fn restore_results(&mut self, sent: Vec<CommandResultItem>)
        ensures
            sent@.len() == 0 ==> final(self).pending() == old(self).pending(),
            sent@.len() > 0 ==> final(self).pending() == sent@.drop_last() + old(self).pending(),
            final(self).status_spec() == old(self).status_spec(),
            final(self).time_diff_spec() == old(self).time_diff_spec(),
    {
        let mut back = sent;
        if back.len() == 0 {
            return;
        }
        let ghost kept = back@.drop_last();
        back.pop();
        assert(back@ =~= kept);
        let mut later: Vec<CommandResultItem> = Vec::new();
        std::mem::swap(&mut later, &mut self.results);
        let ghost l = later@;
        back.append(&mut later);
        assert(back@ =~= kept + l);
        self.results = back;
    }

    /// Starts a batch as run `id` at `now`: the status becomes
    /// `Executing { id }`, and each eligible request command, in order, gives
    /// the action to start; shell commands are accepted and not run.
    pub fn execute(&mut self, commands: ParallelCommands, id: u64, now: Timestamp) -> (r: Vec<WorkerAction>)
        ensures
            final(self).status_spec() == (ClientStatus::Executing { id }),
            r@ == actions_of(commands.commands@, now),
            final(self).time_diff_spec() == old(self).time_diff_spec(),
            final(self).pending() == old(self).pending(),
    {
        self.status = ClientStatus::Executing { id };
        let ghost cs = commands.commands@;
        let mut rest = commands.commands;
        let mut out: Vec<WorkerAction> = Vec::new();
        while rest.len() > 0
            invariant
                out@ + actions_of(rest@, now) == actions_of(cs, now),
            decreases rest@.len(),
        {
            let ghost before = rest@;
            let c = rest.remove(0);
            assert(rest@ =~= before.drop_first());
            if is_eligible(&c, now) {
                match c {
                    RemoteCommand::Request(req) => {
                        let action = if req.single_request {
                            WorkerAction::SingleRequest(req)
                        } else {
                            let timeout_secs = match req.timeout {
                                Some(t) => t,
                                None => DEFAULT_TIMEOUT_SECS,
                            };
                            let stop_after = req.time;
                            WorkerAction::Flood { command: req, timeout_secs, stop_after }
                        };
                        let ghost o = out@;
                        out.push(action);
                        assert(o + (seq![action] + actions_of(rest@, now)) =~= out@ + actions_of(
                            rest@,
                            now,
                        ));
                    },
                    RemoteCommand::Shell(_) => {},
                }
            }
        }
        assert(out@ + Seq::<WorkerAction>::empty() =~= out@);
        out
    }

    /// The heartbeat to send at `now`: the status (after going idle if no
    /// worker is left), the run id, the pending results and a counters
    /// snapshot, and this agent's public address.
    pub fn heartbeat(&mut self, now: Timestamp, ip: String, live_workers: usize, counters: &StatusCounter) -> (r: HeartBeat)
        requires
            now.secs >= 0,
        ensures
            r.timestamp == now.secs,
            live_workers == 0 ==> final(self).status_spec() is Idle,
            live_workers != 0 ==> final(self).status_spec() == old(self).status_spec(),
            r.status == heartbeat_status_of(final(self).status_spec()),
            r.current_command_id == match final(self).status_spec() {
                ClientStatus::Idle => None,
                ClientStatus::Executing { id } => Some(id),
                ClientStatus::Waiting { id, .. } => Some(id),
            },
            r.command_result@.len() == old(self).pending().len() + 1,
            r.command_result@.take(old(self).pending().len() as int) == old(self).pending(),
            r.ip == ip,
            final(self).pending().len() == 0,
    {
        self.check_idle(live_workers);
        let command_result = self.pop_results(counters, now.secs as u64);
        let status = self.status;
        HeartBeat {
            timestamp: now.secs as u64,
            status: status.heartbeat_status(),
            current_command_id: status.current_command_id(),
            command_result,
            ip,
        }
    }

    /// Acts on a controller's answer received at `now`. A server timestamp
    /// that names no date refuses the answer and changes nothing. Otherwise
    /// the clock offset is recorded, then: `StopCurrent` and `StopAndExecute`
    /// stop the current run; `Execute` and `StopAndExecute` decode the batch
    /// and start it as run `command_id` (0 when absent); a batch with a
    /// refused command starts nothing.
    pub fn on_response(&mut self, resp: ServerResponse, now: Timestamp) -> (r: Result<Directive, HeartbeatError>)
        ensures
            timestamp_from_wire_spec(resp.server_timestamp) is None ==> (r == Err::<Directive, HeartbeatError>(
                HeartbeatError::InvalidServerTimestamp) && final(self).status_spec() == old(self).status_spec()
                && final(self).time_diff_spec() == old(self).time_diff_spec()),
            timestamp_from_wire_spec(resp.server_timestamp) matches Some(st) ==> (r matches Ok(d) && {
                &&& final(self).time_diff_spec() == st.secs - now.secs
                &&& final(self).pending() == old(self).pending()
                &&& d.stop == (resp.next_operation matches Some(NextOperation::StopCurrent)
                    || resp.next_operation matches Some(NextOperation::StopAndExecute(_)))
                &&& match resp.next_operation {
                    Some(NextOperation::StopAndExecute(ms)) => batch_outcome(*old(self), *final(self), d, ms@, resp.command_id, now, true),
                    Some(NextOperation::Execute(ms)) => batch_outcome(*old(self), *final(self), d, ms@, resp.command_id, now, false),
                    Some(NextOperation::StopCurrent) => final(self).status_spec() is Idle && d.start@.len() == 0 && d.refused is None,
                    _ => final(self).status_spec() == old(self).status_spec() && d.start@.len() == 0 && d.refused is None,
                }
            }),
    {
        let server_time = match timestamp_from_wire(resp.server_timestamp) {
            Some(t) => t,
            None => {
                return Err(HeartbeatError::InvalidServerTimestamp);
            },
        };
        self.clock_sync(server_time, now);
        let id = match resp.command_id {
            Some(i) => i,
            None => 0,
        };
        match resp.next_operation {
            None => Ok(Directive { stop: false, start: Vec::new(), refused: None }),
            Some(NextOperation::KeepIdle) => Ok(Directive { stop: false, start: Vec::new(), refused: None }),
            Some(NextOperation::ContinueCurrent) => Ok(
                Directive { stop: false, start: Vec::new(), refused: None },
            ),
            Some(NextOperation::StopCurrent) => {
                self.shutdown_workers();
                Ok(Directive { stop: true, start: Vec::new(), refused: None })
            },
            Some(NextOperation::StopAndExecute(ms)) => {
                self.shutdown_workers();
                match ParallelCommands::try_from(ms) {
                    Ok(batch) => {
                        let start = self.execute(batch, id, now);
                        Ok(Directive { stop: true, start, refused: None })
                    },
                    Err(e) => Ok(Directive { stop: true, start: Vec::new(), refused: Some(e) }),
                }
            },
            Some(NextOperation::Execute(ms)) => {
                match ParallelCommands::try_from(ms) {
                    Ok(batch) => {
                        let start = self.execute(batch, id, now);
                        Ok(Directive { stop: false, start, refused: None })
                    },
                    Err(e) => Ok(Directive { stop: false, start: Vec::new(), refused: Some(e) }),
                }
            },
        }
    }
}

/// What a wire server timestamp reads as.
pub open spec fn timestamp_from_wire_spec(t: u64) -> Option<Timestamp> {
    if crate::command::chrono_secs_valid(t as i64) {
        Some(Timestamp { secs: t as i64 })
    } else {
        None
    }
}

/// How a batch from a controller was handled: when every command decodes,
/// the run starts as `Executing` with the eligible request commands'
/// actions; otherwise nothing starts, the refusal names a refused command,
/// and the status is that after the stop, if any.
pub open spec fn batch_outcome(
    before: ServerCommandExecutor,
    after: ServerCommandExecutor,
    d: Directive,
    ms: Seq<Option<CommandMsg>>,
    command_id: Option<u64>,
    now: Timestamp,
    stopped: bool,
) -> bool {
    if forall|i: int| 0 <= i < ms.len() ==> command_msg_error(#[trigger] ms[i]) is None {
        &&& after.status_spec() == (ClientStatus::Executing {
            id: match command_id {
                Some(i) => i,
                None => 0,
            },
        })
        &&& d.start@ == actions_of(ms.map_values(|m: Option<CommandMsg>| decoded(m)), now)
        &&& d.refused is None
    } else {
        &&& d.start@.len() == 0
        &&& d.refused is Some
        &&& (exists|i: int| 0 <= i < ms.len() && command_msg_error(#[trigger] ms[i]) == d.refused)
        &&& after.status_spec() == if stopped {
            ClientStatus::Idle
        } else {
            before.status_spec()
        }
    }
}


proof fn lemma_actions_concat(a: Seq<RemoteCommand>, b: Seq<RemoteCommand>, now: Timestamp)
    ensures
        actions_of(a + b, now) == actions_of(a, now) + actions_of(b, now),
    decreases a.len(),
{
    if a.len() == 0 {
        assert(a + b =~= b);
        assert(Seq::<WorkerAction>::empty() + actions_of(b, now) =~= actions_of(b, now));
    } else {
        assert((a + b).drop_first() =~= a.drop_first() + b);
        assert((a + b)[0] == a[0]);
        lemma_actions_concat(a.drop_first(), b, now);
        let h = action_of(a[0])->Some_0;
        assert(seq![h] + (actions_of(a.drop_first(), now) + actions_of(b, now)) =~= (seq![h]
            + actions_of(a.drop_first(), now)) + actions_of(b, now));
    }
}

/// A request command whose abort time has passed is never run: the batch
/// gives the same actions without it. One with no scheduled start and an
/// abort time still ahead is run, in its place among the others.
pub proof fn lemma_scheduling_eligibility(cs: Seq<RemoteCommand>, i: int, now: Timestamp)
    requires
        0 <= i < cs.len(),
        cs[i] is Request,
    ensures
        (cs[i].abort_if_after_spec() matches Some(t) && t.secs <= now.secs) ==> actions_of(cs, now)
            == actions_of(cs.remove(i), now),
        (cs[i].start_at_spec() is None && (cs[i].abort_if_after_spec() matches Some(t) && t.secs
            > now.secs)) ==> actions_of(cs, now) == actions_of(cs.take(i), now) + seq![
            action_of(cs[i])->Some_0,
        ] + actions_of(cs.skip(i + 1), now),
{
    let one = seq![cs[i]];
    assert(cs =~= cs.take(i) + (one + cs.skip(i + 1)));
    assert(cs.remove(i) =~= cs.take(i) + cs.skip(i + 1));
    lemma_actions_concat(cs.take(i), one + cs.skip(i + 1), now);
    lemma_actions_concat(one, cs.skip(i + 1), now);
    lemma_actions_concat(cs.take(i), cs.skip(i + 1), now);
    assert(one.drop_first() =~= Seq::<RemoteCommand>::empty());
    assert(actions_of(one.drop_first(), now) =~= Seq::<WorkerAction>::empty());
    assert(one[0] == cs[i]);
    let a = actions_of(cs.take(i), now);
    let b = actions_of(cs.skip(i + 1), now);
    if cs[i].abort_if_after_spec() matches Some(t) && t.secs <= now.secs {
        assert(!eligible(cs[i], now));
        assert(actions_of(one, now) =~= Seq::<WorkerAction>::empty());
        assert(Seq::<WorkerAction>::empty() + b =~= b);
    }
    if cs[i].start_at_spec() is None && (cs[i].abort_if_after_spec() matches Some(t) && t.secs > now.secs) {
        assert(eligible(cs[i], now));
        assert(action_of(cs[i]) is Some);
        assert(actions_of(one, now) =~= seq![action_of(cs[i])->Some_0]);
        assert(a + (seq![action_of(cs[i])->Some_0] + b) =~= a + seq![action_of(cs[i])->Some_0] + b);
    }
}

} // verus!
