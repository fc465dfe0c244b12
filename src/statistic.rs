use vstd::prelude::*;

verus! {

/// The five mutually exclusive outcome classes of a request.
#[derive(Debug, Clone, Copy, PartialEq, Eq, Structural)]
pub enum StatusBucket {
    Success,
    Redirect,
    ClientError,
    ServerError,
    Other,
}

/// The bucket that an HTTP status code falls into.
pub open spec fn bucket_of(status: int) -> StatusBucket {
    if 200 <= status <= 299 {
        StatusBucket::Success
    } else if 300 <= status <= 399 {
        StatusBucket::Redirect
    } else if 400 <= status <= 499 {
        StatusBucket::ClientError
    } else if 500 <= status <= 599 {
        StatusBucket::ServerError
    } else {
        StatusBucket::Other
    }
}

/// Classifies an HTTP status code into its bucket.
pub fn classify_status(status: u16) -> (r: StatusBucket)
    ensures
        r == bucket_of(status as int),
{
    if 200 <= status && status <= 299 {
        StatusBucket::Success
    } else if 300 <= status && status <= 399 {
        StatusBucket::Redirect
    } else if 400 <= status && status <= 499 {
        StatusBucket::ClientError
    } else if 500 <= status && status <= 599 {
        StatusBucket::ServerError
    } else {
        StatusBucket::Other
    }
}

/// One counter per status bucket.
#[derive(Debug, Clone, Copy, PartialEq, Eq, Default, Structural)]
pub struct StatusCounter {
    pub status_2xx: u64,
    pub status_3xx: u64,
    pub status_4xx: u64,
    pub status_5xx: u64,
    pub status_other: u64,
}

impl StatusCounter {
    /// All buckets at zero.
    pub fn new() -> (r: StatusCounter)
        ensures
            r.total() == 0,
            r == StatusCounter::zero(),
    {
        StatusCounter { status_2xx: 0, status_3xx: 0, status_4xx: 0, status_5xx: 0, status_other: 0 }
    }

    pub open spec fn zero() -> StatusCounter {
        StatusCounter { status_2xx: 0, status_3xx: 0, status_4xx: 0, status_5xx: 0, status_other: 0 }
    }

    /// The sum of all buckets.
    pub open spec fn total(self) -> int {
        self.status_2xx + self.status_3xx + self.status_4xx + self.status_5xx + self.status_other
    }

    /// The value of one bucket.
    pub open spec fn get(self, b: StatusBucket) -> int {
        match b {
            StatusBucket::Success => self.status_2xx as int,
            StatusBucket::Redirect => self.status_3xx as int,
            StatusBucket::ClientError => self.status_4xx as int,
            StatusBucket::ServerError => self.status_5xx as int,
            StatusBucket::Other => self.status_other as int,
        }
    }

    /// `self` with bucket `b` one higher.
    pub open spec fn bumped(self, b: StatusBucket) -> StatusCounter {
        match b {
            StatusBucket::Success => StatusCounter { status_2xx: (self.status_2xx + 1) as u64, ..self },
            StatusBucket::Redirect => StatusCounter { status_3xx: (self.status_3xx + 1) as u64, ..self },
            StatusBucket::ClientError => StatusCounter { status_4xx: (self.status_4xx + 1) as u64, ..self },
            StatusBucket::ServerError => StatusCounter { status_5xx: (self.status_5xx + 1) as u64, ..self },
            StatusBucket::Other => StatusCounter { status_other: (self.status_other + 1) as u64, ..self },
        }
    }

    /// Whether no bucket of `self` is above the same bucket of `later`.
    pub open spec fn le(self, later: StatusCounter) -> bool {
        &&& self.status_2xx <= later.status_2xx
        &&& self.status_3xx <= later.status_3xx
        &&& self.status_4xx <= later.status_4xx
        &&& self.status_5xx <= later.status_5xx
        &&& self.status_other <= later.status_other
    }

    /// Adds one to a bucket.
    pub fn bump(&mut self, b: StatusBucket)
        requires
            old(self).get(b) < u64::MAX,
        ensures
            *final(self) == old(self).bumped(b),
            final(self).total() == old(self).total() + 1,
    {
        match b {
            StatusBucket::Success => self.status_2xx = self.status_2xx + 1,
            StatusBucket::Redirect => self.status_3xx = self.status_3xx + 1,
            StatusBucket::ClientError => self.status_4xx = self.status_4xx + 1,
            StatusBucket::ServerError => self.status_5xx = self.status_5xx + 1,
            StatusBucket::Other => self.status_other = self.status_other + 1,
        }
    }

    /// The buckets as a heartbeat reports them, stamped with `timestamp`.
    pub open spec fn get_grpc_spec(&self, timestamp: u64) -> RequestCommandResultItem {
        RequestCommandResultItem {
            code_2: self.status_2xx,
            code_3: self.status_3xx,
            code_4: self.status_4xx,
            code_5: self.status_5xx,
            failure: self.status_other,
            timestamp,
        }
    }

    /// The buckets as a heartbeat reports them, stamped with `timestamp`.
    pub fn get_grpc(&self, timestamp: u64) -> (r: RequestCommandResultItem)
        ensures
            r == self.get_grpc_spec(timestamp),
    {
        RequestCommandResultItem {
            code_2: self.status_2xx,
            code_3: self.status_3xx,
            code_4: self.status_4xx,
            code_5: self.status_5xx,
            failure: self.status_other,
            timestamp,
        }
    }
}

/// Counts one response of HTTP status `status` in its bucket.
pub fn update_status_counter(status: u16, sc: &mut StatusCounter)
    requires
        old(sc).get(bucket_of(status as int)) < u64::MAX,
    ensures
        *final(sc) == old(sc).bumped(bucket_of(status as int)),
        final(sc).total() == old(sc).total() + 1,
{
    let b = classify_status(status);
    sc.bump(b);
}

/// A snapshot of the bucket counters, as reported to a controller.
#[derive(Debug, Clone, Copy, PartialEq, Eq, Structural)]
pub struct RequestCommandResultItem {
    pub code_2: u64,
    pub code_3: u64,
    pub code_4: u64,
    pub code_5: u64,
    pub failure: u64,
    pub timestamp: u64,
}

/// How one attempt of the fire loop ended.
#[derive(Debug, Clone, Copy, PartialEq, Eq, Structural)]
pub enum RequestOutcome {
    /// Headers came back with `status`; `bytes` of the body were read, and
    /// `drain_timed_out` tells whether reading the body ran out of time.
    Completed { status: u16, bytes: u64, drain_timed_out: bool },
    /// The request could not be sent (connect error, timeout, TLS failure).
    SendFailed,
}

/// What one outcome adds to the statistics.
#[derive(Debug, Clone, Copy, PartialEq, Eq, Structural)]
pub struct StatDelta {
    /// 1 when a response came back, else 0.
    pub requests: u64,
    /// Body bytes received.
    pub bytes: u64,
    /// The one bucket that the outcome is counted in.
    pub bucket: StatusBucket,
}

/// The bucket an outcome is counted in: a response goes by its status, unless
/// its body could not be read in time, which counts as `Other`; a failed send
/// is `Other`.
pub open spec fn outcome_bucket(o: RequestOutcome) -> StatusBucket {
    match o {
        RequestOutcome::Completed { status, bytes, drain_timed_out } => {
            if drain_timed_out {
                StatusBucket::Other
            } else {
                bucket_of(status as int)
            }
        },
        RequestOutcome::SendFailed => StatusBucket::Other,
    }
}

pub open spec fn outcome_requests(o: RequestOutcome) -> int {
    match o {
        RequestOutcome::Completed { .. } => 1,
        RequestOutcome::SendFailed => 0,
    }
}

pub open spec fn outcome_bytes(o: RequestOutcome) -> int {
    match o {
        RequestOutcome::Completed { bytes, .. } => bytes as int,
        RequestOutcome::SendFailed => 0,
    }
}

/// What an outcome adds to the statistics.
pub fn outcome_delta(o: RequestOutcome) -> (d: StatDelta)
    ensures
        d.requests == outcome_requests(o),
        d.bytes == outcome_bytes(o),
        d.bucket == outcome_bucket(o),
{
    match o {
        RequestOutcome::Completed { status, bytes, drain_timed_out } => {
            let bucket = if drain_timed_out {
                StatusBucket::Other
            } else {
                classify_status(status)
            };
            StatDelta { requests: 1, bytes, bucket }
        },
        RequestOutcome::SendFailed => StatDelta { requests: 0, bytes: 0, bucket: StatusBucket::Other },
    }
}

/// The statistics of one run: responses received, buckets, and body bytes.
#[derive(Debug, Clone, Copy, PartialEq, Eq, Default, Structural)]
pub struct Statistic {
    pub request_counter: u64,
    pub status_counter: StatusCounter,
    pub network_traffics: u64,
}

/// The statistics after `o` is recorded on `s`.
pub open spec fn recorded(s: Statistic, o: RequestOutcome) -> Statistic {
    Statistic {
        request_counter: (s.request_counter + outcome_requests(o)) as u64,
        status_counter: s.status_counter.bumped(outcome_bucket(o)),
        network_traffics: (s.network_traffics + outcome_bytes(o)) as u64,
    }
}

/// Whether `s` has room to record one more outcome without overflow.
pub open spec fn has_room(s: Statistic, o: RequestOutcome) -> bool {
    &&& s.status_counter.get(outcome_bucket(o)) < u64::MAX
    &&& s.request_counter + outcome_requests(o) <= u64::MAX
    &&& s.network_traffics + outcome_bytes(o) <= u64::MAX
}

/// The statistics after each outcome of `os` is recorded in turn.
pub open spec fn recorded_all(s: Statistic, os: Seq<RequestOutcome>) -> Statistic
    decreases os.len(),
{
    if os.len() == 0 {
        s
    } else {
        recorded_all(recorded(s, os[0]), os.drop_first())
    }
}

/// Number of failed sends in `os`.
pub open spec fn failed_sends(os: Seq<RequestOutcome>) -> int
    decreases os.len(),
{
    if os.len() == 0 {
        0
    } else {
        (if os[0] is SendFailed { 1int } else { 0int }) + failed_sends(os.drop_first())
    }
}

/// Number of outcomes of `os` where a response came back.
pub open spec fn completed_sends(os: Seq<RequestOutcome>) -> int
    decreases os.len(),
{
    if os.len() == 0 {
        0
    } else {
        (if os[0] is Completed { 1int } else { 0int }) + completed_sends(os.drop_first())
    }
}

/// Whether no counter of `s` exceeds the matching counter of `t`.
pub open spec fn stat_le(s: Statistic, t: Statistic) -> bool {
    &&& s.request_counter <= t.request_counter
    &&& s.network_traffics <= t.network_traffics
    &&& s.status_counter.le(t.status_counter)
}

/// Whether every outcome of `os`, recorded in turn from `s`, fits in the counters.
pub open spec fn fits_all(s: Statistic, os: Seq<RequestOutcome>) -> bool
    decreases os.len(),
{
    if os.len() == 0 {
        true
    } else {
        has_room(s, os[0]) && fits_all(recorded(s, os[0]), os.drop_first())
    }
}

impl Statistic {
    /// A fresh set of counters, all zero.
    pub fn new() -> (r: Statistic)
        ensures
            r.request_counter == 0,
            r.network_traffics == 0,
            r.status_counter == StatusCounter::zero(),
    {
        Statistic { request_counter: 0, status_counter: StatusCounter::new(), network_traffics: 0 }
    }

    /// Records how one request ended.
    pub fn record(&mut self, o: RequestOutcome)
        requires
            has_room(*old(self), o),
        ensures
            *final(self) == recorded(*old(self), o),
    {
        let d = outcome_delta(o);
        self.request_counter = self.request_counter + d.requests;
        self.network_traffics = self.network_traffics + d.bytes;
        self.status_counter.bump(d.bucket);
    }
}

/// Recording outcomes keeps the buckets' sum equal to the responses received
/// plus the failed sends, and no counter ever goes down.
pub proof fn lemma_statistics_conservation(s: Statistic, os: Seq<RequestOutcome>)
    requires
        fits_all(s, os),
    ensures
        recorded_all(s, os).status_counter.total() - s.status_counter.total()
            == (recorded_all(s, os).request_counter - s.request_counter) + failed_sends(os),
        recorded_all(s, os).request_counter - s.request_counter == completed_sends(os),
        stat_le(s, recorded_all(s, os)),
    decreases os.len(),
{
    if os.len() > 0 {
        lemma_statistics_conservation(recorded(s, os[0]), os.drop_first());
    }
}

/// A run in which every request comes back `200 OK` with a 10-byte body
/// keeps every response in the 2xx bucket and 10 bytes per response, from
/// fresh counters on.
pub proof fn lemma_all_ok_run(s: Statistic, os: Seq<RequestOutcome>)
    requires
        s.status_counter.status_2xx == s.request_counter,
        s.network_traffics == 10 * s.request_counter,
        s.status_counter.status_3xx == 0,
        s.status_counter.status_4xx == 0,
        s.status_counter.status_5xx == 0,
        s.status_counter.status_other == 0,
        forall|i: int| 0 <= i < os.len() ==> #[trigger] os[i] == (RequestOutcome::Completed {
            status: 200,
            bytes: 10,
            drain_timed_out: false,
        }),
        fits_all(s, os),
    ensures
        ({
            let t = recorded_all(s, os);
            &&& t.status_counter.status_2xx == t.request_counter
            &&& t.network_traffics == 10 * t.request_counter
            &&& t.status_counter.status_3xx == 0
            &&& t.status_counter.status_4xx == 0
            &&& t.status_counter.status_5xx == 0
            &&& t.status_counter.status_other == 0
        }),
    decreases os.len(),
{
    if os.len() > 0 {
        assert(os[0] == (RequestOutcome::Completed { status: 200, bytes: 10, drain_timed_out: false }));
        let rest = os.drop_first();
        assert forall|i: int| 0 <= i < rest.len() implies #[trigger] rest[i] == (RequestOutcome::Completed {
            status: 200,
            bytes: 10,
            drain_timed_out: false,
        }) by {
            assert(rest[i] == os[i + 1]);
        }
        lemma_all_ok_run(recorded(s, os[0]), rest);
    }
}

} // verus!
