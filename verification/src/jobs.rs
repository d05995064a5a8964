//! Backtest jobs: what the gateway and the runner tell each other, and what
//! the runner does with a job.
use vstd::prelude::*;

use crate::arith::HUNDRED_BITS;
use crate::json::{parse_json, parsed_json};
use crate::num::Num;
use crate::order::{GridSnapshot, Order, OrderEvent, OrderType};
use crate::redis::RedisCommand;
use crate::text::{decimal, decimal_text, same, signed_decimal, signed_decimal_text};

verus! {

/// The stream that jobs are submitted to.
pub const JOB_STREAM_KEY: &'static str = "backtest:jobs";

/// The name of a job's key.
pub open spec fn job_key(job_id: Seq<char>) -> Seq<char> {
    "backtest:job:"@ + job_id
}

/// The hash that holds a job's status.
pub fn job_status_key(job_id: &str) -> (r: String)
    ensures
        r@ == job_key(job_id@),
{
    let mut s = "backtest:job:".to_owned();
    s.append(job_id);
    s
}

/// The list that holds a job's events.
pub fn job_events_key(job_id: &str) -> (r: String)
    ensures
        r@ == job_key(job_id@) + ":events"@,
{
    let mut s = job_status_key(job_id);
    s.append(":events");
    s
}

/// The flag that asks for a job to stop.
pub fn job_cancel_key(job_id: &str) -> (r: String)
    ensures
        r@ == job_key(job_id@) + ":cancel"@,
{
    let mut s = job_status_key(job_id);
    s.append(":cancel");
    s
}

/// The name of the key that a user's running job holds.
pub open spec fn guard_key(tenant_id: i64, user_id: Seq<char>) -> Seq<char> {
    "backtest:user:"@ + signed_decimal(tenant_id as int) + ":"@ + user_id + ":active"@
}

/// The key that a user's running job holds.
pub fn user_guard_key(tenant_id: i64, user_id: &str) -> (r: String)
    ensures
        r@ == guard_key(tenant_id, user_id@),
{
    let mut s = "backtest:user:".to_owned();
    s.append(&signed_decimal_text(tenant_id));
    s.append(":");
    s.append(user_id);
    s.append(":active");
    s
}

/// The candles that are loaded ahead of a job where nothing is asked for: thirty
/// days.
pub fn default_lookback() -> (r: u64)
    ensures
        r == 30 * 24 * 60 * 60,
{
    2592000
}

/// The resolution that plans are built from where nothing is asked for.
pub fn default_resolution_rebuild() -> (r: String)
    ensures
        r@ == "1H"@,
{
    "1H".to_owned()
}

/// The resolution that is traded on where nothing is asked for.
pub fn default_resolution_test() -> (r: String)
    ensures
        r@ == "5m"@,
{
    "5m".to_owned()
}

/// The seconds after which a user's slot frees itself.
pub fn default_guard_ttl() -> (r: u64)
    ensures
        r == 24 * 60 * 60,
{
    86400
}

/// What happens to a job.
#[derive(Debug)]
pub enum JobEventKind {
    Started,
    Progress { percent: Num },
    Finished { score: Num },
    Failed { reason: String },
    Cancelled,
    OrderPlaced {
        ts: u64,
        grid: usize,
        level: usize,
        long: bool,
        entry_price: Num,
        size: Num,
        sl_price: Num,
        tp_price: Num,
        unlock_seq: u64,
    },
    OrderClosed {
        ts: u64,
        grid: usize,
        level: usize,
        long: bool,
        entry_price: Num,
        exit_price: Num,
        pnl_pct: Num,
        reason: String,
    },
    OrderRejected { ts: u64, grid: usize, level: usize, reason: String },
    GridRebuilt { ts: u64, grids: Vec<GridSnapshot> },
}

/// An event of a job.
#[derive(Debug)]
pub struct JobEvent {
    pub job_id: String,
    pub tenant_id: i64,
    pub ts: u64,
    pub kind: JobEventKind,
}

/// `o`, or zero where it is not there.
pub open spec fn or_zero(o: Option<Num>) -> Num {
    match o {
        Some(x) => x,
        None => Num { bits: 0 },
    }
}

/// Whether an order was closed by its stop-loss: at the stop or beyond it.
pub open spec fn stopped_out(order: Order) -> bool {
    let exit = or_zero(order.exit_price);
    match order.dtype {
        OrderType::Long => exit.at_most(order.sl_price),
        OrderType::Short => order.sl_price.at_most(exit),
        OrderType::Unknown => false,
    }
}

/// Why an order was closed.
pub fn close_reason(order: &Order) -> (r: &'static str)
    ensures
        r@ == (if stopped_out(*order) { "stop_loss"@ } else { "take_profit"@ }),
{
    let exit = match order.exit_price {
        Some(x) => x,
        None => Num::zero(),
    };
    let stop = match order.dtype {
        OrderType::Long => exit.le(order.sl_price),
        OrderType::Unknown => false,
        OrderType::Short => order.sl_price.le(exit),
    };
    if stop {
        "stop_loss"
    } else {
        "take_profit"
    }
}

impl JobEventKind {
    /// The event of a job that an event of its orders is. `reason` says why an
    /// order was rejected, where the event is a rejection.
    pub fn of(event: OrderEvent, reason: String) -> (r: JobEventKind)
        ensures
            event matches OrderEvent::Placed { ts, order } ==> r == (JobEventKind::OrderPlaced {
                ts,
                grid: order.grid_index,
                level: order.level_index,
                long: order.dtype == OrderType::Long,
                entry_price: order.entry_price,
                size: order.size,
                sl_price: order.sl_price,
                tp_price: order.tp_price,
                unlock_seq: order.unlock_seq,
            }),
            event matches OrderEvent::Closed { ts, order } ==> (r matches JobEventKind::OrderClosed {
                ts: t,
                grid,
                level,
                long,
                entry_price,
                exit_price,
                pnl_pct,
                reason: why,
            } && t == ts && grid == order.grid_index && level == order.level_index && long == (order.dtype
                == OrderType::Long) && entry_price == order.entry_price && exit_price == or_zero(order.exit_price)
                && pnl_pct == or_zero(order.pnl_pct) && why@ == (if stopped_out(order) {
                "stop_loss"@
            } else {
                "take_profit"@
            })),
            event matches OrderEvent::Rejected { ts, grid, level, .. } ==> r == (JobEventKind::OrderRejected {
                ts,
                grid,
                level,
                reason,
            }),
            event matches OrderEvent::Rebuilt { ts, grids } ==> r == (JobEventKind::GridRebuilt { ts, grids }),
    {
        match event {
            OrderEvent::Placed { ts, order } => JobEventKind::OrderPlaced {
                ts,
                grid: order.grid_index,
                level: order.level_index,
                long: order.dtype == OrderType::Long,
                entry_price: order.entry_price,
                size: order.size,
                sl_price: order.sl_price,
                tp_price: order.tp_price,
                unlock_seq: order.unlock_seq,
            },
            OrderEvent::Closed { ts, order } => {
                let exit_price = match order.exit_price {
                    Some(x) => x,
                    None => Num::zero(),
                };
                let pnl_pct = match order.pnl_pct {
                    Some(x) => x,
                    None => Num::zero(),
                };
                JobEventKind::OrderClosed {
                    ts,
                    grid: order.grid_index,
                    level: order.level_index,
                    long: order.dtype == OrderType::Long,
                    entry_price: order.entry_price,
                    exit_price,
                    pnl_pct,
                    reason: close_reason(&order).to_owned(),
                }
            },
            OrderEvent::Rejected { ts, grid, level, .. } => JobEventKind::OrderRejected { ts, grid, level, reason },
            OrderEvent::Rebuilt { ts, grids } => JobEventKind::GridRebuilt { ts, grids },
        }
    }

    /// The name of the kind.
    pub open spec fn tag_text(self) -> Seq<char> {
        match self {
            JobEventKind::Started => "started"@,
            JobEventKind::Progress { .. } => "progress"@,
            JobEventKind::Finished { .. } => "finished"@,
            JobEventKind::Failed { .. } => "failed"@,
            JobEventKind::Cancelled => "cancelled"@,
            JobEventKind::OrderPlaced { .. } => "order_placed"@,
            JobEventKind::OrderClosed { .. } => "order_closed"@,
            JobEventKind::OrderRejected { .. } => "order_rejected"@,
            JobEventKind::GridRebuilt { .. } => "grid_rebuilt"@,
        }
    }

    /// The name of the kind.
    pub fn tag(&self) -> (r: &'static str)
        ensures
            r@ == self.tag_text(),
    {
        match self {
            JobEventKind::Started => "started",
            JobEventKind::Progress { .. } => "progress",
            JobEventKind::Finished { .. } => "finished",
            JobEventKind::Failed { .. } => "failed",
            JobEventKind::Cancelled => "cancelled",
            JobEventKind::OrderPlaced { .. } => "order_placed",
            JobEventKind::OrderClosed { .. } => "order_closed",
            JobEventKind::OrderRejected { .. } => "order_rejected",
            JobEventKind::GridRebuilt { .. } => "grid_rebuilt",
        }
    }
}

/// Writes a job's status, given as JSON text.
pub fn write_status(job_id: &str, raw: &str) -> (r: RedisCommand)
    ensures
        r.words() == seq!["HSET"@, job_key(job_id@), "status"@, raw@],
{
    let r = RedisCommand::new("HSET").arg(&job_status_key(job_id)).arg("status").arg(raw);
    assert(r.words() =~= seq!["HSET"@, job_key(job_id@), "status"@, raw@]);
    r
}

/// Reads a job's status.
pub fn read_status(job_id: &str) -> (r: RedisCommand)
    ensures
        r.words() == seq!["HGET"@, job_key(job_id@), "status"@],
{
    let r = RedisCommand::new("HGET").arg(&job_status_key(job_id)).arg("status");
    assert(r.words() =~= seq!["HGET"@, job_key(job_id@), "status"@]);
    r
}

/// What a job's status says, where it has one: the value of its JSON text, or
/// the error.
pub fn status_of(raw: Option<&str>) -> (r: Result<Option<serde_json::Value>, serde_json::Error>)
    ensures
        raw is None ==> r == Ok::<Option<serde_json::Value>, serde_json::Error>(None),
        raw matches Some(s) ==> (r is Err <==> parsed_json(s@) is None),
        raw matches Some(s) ==> (r matches Ok(v) ==> v is Some && v == parsed_json(s@)),
{
    match raw {
        Some(text) => match parse_json(text) {
            Ok(v) => Ok(Some(v)),
            Err(e) => Err(e),
        },
        None => Ok(None),
    }
}

/// The values of those texts that are JSON, in their order.
pub open spec fn readable(raws: Seq<String>) -> Seq<serde_json::Value>
    decreases raws.len(),
{
    if raws.len() == 0 {
        Seq::empty()
    } else {
        let before = readable(raws.drop_last());
        match parsed_json(raws.last()@) {
            Some(v) => before.push(v),
            None => before,
        }
    }
}

/// What a job's events say. A text that is no JSON is passed over.
pub fn events_of(raws: &Vec<String>) -> (r: Vec<serde_json::Value>)
    ensures
        r@ == readable(raws@),
{
    let mut out: Vec<serde_json::Value> = Vec::new();
    let mut i: usize = 0;
    while i < raws.len()
        invariant
            i <= raws@.len(),
            out@ == readable(raws@.take(i as int)),
        decreases raws@.len() - i,
    {
        proof {
            assert(raws@.take(i + 1).drop_last() =~= raws@.take(i as int));
            assert(raws@.take(i + 1).last() == raws@[i as int]);
        }
        if let Ok(v) = parse_json(&raws[i]) {
            out.push(v);
        }
        i += 1;
    }
    assert(raws@.take(i as int) =~= raws@);
    out
}

/// Reads the newest events of a job; one even where none are asked for.
pub fn read_events(job_id: &str, limit: usize) -> (r: RedisCommand)
    ensures
        r.words() == seq![
            "LRANGE"@,
            job_key(job_id@) + ":events"@,
            decimal(0),
            decimal(if limit == 0 { 0 } else { (limit - 1) as nat }),
        ],
{
    let last: usize = if limit == 0 { 0 } else { limit - 1 };
    let r = RedisCommand::new("LRANGE").arg(&job_events_key(job_id)).arg(&decimal_text(0)).arg(
        &decimal_text(last as u64),
    );
    assert(r.words() =~= seq!["LRANGE"@, job_key(job_id@) + ":events"@, decimal(0), decimal(last as nat)]);
    r
}

/// What a slot is, as a server keeps it: the job that holds it.
pub open spec fn slot_after_acquire(holder: Option<Seq<char>>, job_id: Seq<char>) -> Option<Seq<char>> {
    match holder {
        Some(h) => Some(h),
        None => Some(job_id),
    }
}

/// The job that holds a slot.
pub open spec fn text_held(holder: Option<String>) -> Option<Seq<char>> {
    match holder {
        Some(h) => Some(h@),
        None => None,
    }
}

/// What a slot is after a job gave it up.
pub open spec fn slot_after_release(holder: Option<Seq<char>>, job_id: Seq<char>) -> Option<Seq<char>> {
    if holder == Some(job_id) {
        None
    } else {
        holder
    }
}

/// Takes a user's slot for a job, unless it is taken; it frees itself after
/// `ttl_secs`.
pub fn acquire_user_slot(tenant_id: i64, user_id: &str, job_id: &str, ttl_secs: u64) -> (r: RedisCommand)
    ensures
        r.words() == seq!["SET"@, guard_key(tenant_id, user_id@), job_id@, "NX"@, "EX"@, decimal(ttl_secs as nat)],
{
    let r = RedisCommand::new("SET").arg(&user_guard_key(tenant_id, user_id)).arg(job_id).arg("NX").arg("EX").arg(
        &decimal_text(ttl_secs),
    );
    assert(r.words() =~= seq![
        "SET"@,
        guard_key(tenant_id, user_id@),
        job_id@,
        "NX"@,
        "EX"@,
        decimal(ttl_secs as nat),
    ]);
    r
}

/// Asks who holds a user's slot.
pub fn read_user_slot(tenant_id: i64, user_id: &str) -> (r: RedisCommand)
    ensures
        r.words() == seq!["GET"@, guard_key(tenant_id, user_id@)],
{
    let r = RedisCommand::new("GET").arg(&user_guard_key(tenant_id, user_id));
    assert(r.words() =~= seq!["GET"@, guard_key(tenant_id, user_id@)]);
    r
}

/// Frees a user's slot, given who holds it. A job frees no slot but its own.
pub fn release_user_slot(tenant_id: i64, user_id: &str, job_id: &str, holder: &Option<String>) -> (r: Option<RedisCommand>)
    ensures
        r is Some <==> holder is Some && slot_after_release(text_held(*holder), job_id@) is None,
        r matches Some(c) ==> c.words() == seq!["DEL"@, guard_key(tenant_id, user_id@)],
{
    match holder {
        Some(h) if same(h, job_id) => {
            let c = RedisCommand::new("DEL").arg(&user_guard_key(tenant_id, user_id));
            assert(c.words() =~= seq!["DEL"@, guard_key(tenant_id, user_id@)]);
            Some(c)
        },
        _ => None,
    }
}

/// Asks for a job to stop.
pub fn request_cancel(job_id: &str) -> (r: RedisCommand)
    ensures
        r.words() == seq!["SET"@, job_key(job_id@) + ":cancel"@, "1"@],
{
    let r = RedisCommand::new("SET").arg(&job_cancel_key(job_id)).arg("1");
    assert(r.words() =~= seq!["SET"@, job_key(job_id@) + ":cancel"@, "1"@]);
    r
}

/// Asks whether a job was asked to stop.
pub fn read_cancel(job_id: &str) -> (r: RedisCommand)
    ensures
        r.words() == seq!["EXISTS"@, job_key(job_id@) + ":cancel"@],
{
    let r = RedisCommand::new("EXISTS").arg(&job_cancel_key(job_id));
    assert(r.words() =~= seq!["EXISTS"@, job_key(job_id@) + ":cancel"@]);
    r
}

/// One running job for each user: a slot that is held is neither taken nor freed
/// by another job, and a job that took a slot frees it again.
pub proof fn a_slot_has_one_holder(holder: Option<Seq<char>>, a: Seq<char>, b: Seq<char>)
    requires
        a != b,
    ensures
        slot_after_acquire(Some(a), b) == Some(a),
        slot_after_release(Some(a), b) == Some(a),
        holder is None ==> slot_after_release(slot_after_acquire(holder, a), a) is None,
{
}

/// Where a job stands.
#[derive(Clone, Copy, Debug, PartialEq, Eq, Structural)]
pub enum JobState {
    Running,
    Finished,
    Failed,
    Cancelled,
}

impl JobState {
    /// The name of the state.
    pub open spec fn text(self) -> Seq<char> {
        match self {
            JobState::Running => "running"@,
            JobState::Finished => "finished"@,
            JobState::Failed => "failed"@,
            JobState::Cancelled => "cancelled"@,
        }
    }

    /// The name of the state.
    pub fn name(&self) -> (r: &'static str)
        ensures
            r@ == self.text(),
    {
        match self {
            JobState::Running => "running",
            JobState::Finished => "finished",
            JobState::Failed => "failed",
            JobState::Cancelled => "cancelled",
        }
    }
}

/// A job's status.
#[derive(Debug)]
pub struct JobStatus {
    pub state: JobState,
    pub progress: Option<Num>,
    pub score: Option<Num>,
    pub error: Option<String>,
    pub s3_key: Option<String>,
    pub submitted_at: Option<u64>,
    pub started_at: Option<u64>,
    pub finished_at: Option<u64>,
}

/// A status with nothing set but its state.
pub open spec fn bare(state: JobState) -> JobStatus {
    JobStatus {
        state,
        progress: None,
        score: None,
        error: None,
        s3_key: None,
        submitted_at: None,
        started_at: None,
        finished_at: None,
    }
}

fn bare_status(state: JobState) -> (r: JobStatus)
    ensures
        r == bare(state),
{
    JobStatus {
        state,
        progress: None,
        score: None,
        error: None,
        s3_key: None,
        submitted_at: None,
        started_at: None,
        finished_at: None,
    }
}

/// Whether a status says that a job got no worker.
pub open spec fn says_no_worker(status: JobStatus, why: Seq<char>) -> bool {
    &&& status.error matches Some(e) && e@ == "semaphore closed: "@ + why
    &&& status == (JobStatus { error: status.error, ..bare(JobState::Failed) })
}

/// The status of a job that got no worker.
pub fn on_no_worker(why: &str) -> (r: JobStatus)
    ensures
        says_no_worker(r, why@),
{
    let mut e = "semaphore closed: ".to_owned();
    e.append(why);
    JobStatus { error: Some(e), ..bare_status(JobState::Failed) }
}

/// What came of the attempt to take the user's slot.
#[derive(Debug)]
pub enum SlotReply {
    Taken,
    HeldByOther,
    Error(String),
}

/// Whether a status says what came of the attempt to take the user's slot.
pub open spec fn says_slot(
    status: JobStatus,
    reply: SlotReply,
    user_id: Seq<char>,
    submitted_at: u64,
    now: u64,
) -> bool {
    match reply {
        SlotReply::Taken => status == (JobStatus {
            progress: Some(Num { bits: 0 }),
            submitted_at: Some(submitted_at),
            started_at: Some(now),
            ..bare(JobState::Running)
        }),
        SlotReply::HeldByOther => {
            &&& status.error matches Some(e) && e@ == "user "@ + user_id + " already has a running backtest"@
            &&& status == (JobStatus {
                error: status.error,
                submitted_at: Some(submitted_at),
                finished_at: Some(now),
                ..bare(JobState::Failed)
            })
        },
        SlotReply::Error(e) => status == (JobStatus { error: Some(e), ..bare(JobState::Failed) }),
    }
}

/// What is done with a job once the slot was tried: its status, and whether it
/// runs.
pub fn on_slot(reply: SlotReply, user_id: &str, submitted_at: u64, now: u64) -> (r: (JobStatus, bool))
    ensures
        r.1 <==> reply is Taken,
        says_slot(r.0, reply, user_id@, submitted_at, now),
{
    match reply {
        SlotReply::Taken => (
            JobStatus {
                progress: Some(Num::zero()),
                submitted_at: Some(submitted_at),
                started_at: Some(now),
                ..bare_status(JobState::Running)
            },
            true,
        ),
        SlotReply::HeldByOther => {
            let mut e = "user ".to_owned();
            e.append(user_id);
            e.append(" already has a running backtest");
            (
                JobStatus {
                    error: Some(e),
                    submitted_at: Some(submitted_at),
                    finished_at: Some(now),
                    ..bare_status(JobState::Failed)
                },
                false,
            )
        },
        SlotReply::Error(e) => (JobStatus { error: Some(e), ..bare_status(JobState::Failed) }, false),
    }
}

/// How a job's run ended.
#[derive(Debug)]
pub enum RunEnd {
    /// With a score, and the key of its result where that was stored.
    Done { score: Num, s3_key: Option<String> },
    /// With an error.
    Error(String),
    /// By a panic.
    Panic(String),
    /// On request.
    Cancelled,
}

/// Whether a status and an event say how a job's run ended.
pub open spec fn says_end(r: (JobStatus, JobEventKind), end: RunEnd, submitted_at: u64, now: u64) -> bool {
    match end {
        RunEnd::Done { score, s3_key } => r.0 == (JobStatus {
            progress: Some(Num { bits: HUNDRED_BITS }),
            score: Some(score),
            s3_key,
            submitted_at: Some(submitted_at),
            started_at: Some(now),
            finished_at: Some(now),
            ..bare(JobState::Finished)
        }) && r.1 == (JobEventKind::Finished { score }),
        RunEnd::Cancelled => r.0 == (JobStatus {
            submitted_at: Some(submitted_at),
            finished_at: Some(now),
            ..bare(JobState::Cancelled)
        }) && r.1 == JobEventKind::Cancelled,
        RunEnd::Error(e) => failed_with(r, "backtest failed: "@ + e@, submitted_at, now),
        RunEnd::Panic(e) => failed_with(r, "backtest task panicked: "@ + e@, submitted_at, now),
    }
}

/// What is said of the end of a job's run: its status, and the event.
pub fn on_end(end: RunEnd, submitted_at: u64, now: u64) -> (r: (JobStatus, JobEventKind))
    ensures
        says_end(r, end, submitted_at, now),
{
    match end {
        RunEnd::Done { score, s3_key } => (
            JobStatus {
                progress: Some(Num { bits: HUNDRED_BITS }),
                score: Some(score),
                s3_key,
                submitted_at: Some(submitted_at),
                started_at: Some(now),
                finished_at: Some(now),
                ..bare_status(JobState::Finished)
            },
            JobEventKind::Finished { score },
        ),
        RunEnd::Cancelled => (
            JobStatus {
                submitted_at: Some(submitted_at),
                finished_at: Some(now),
                ..bare_status(JobState::Cancelled)
            },
            JobEventKind::Cancelled,
        ),
        RunEnd::Error(e) => failure("backtest failed: ", &e, submitted_at, now),
        RunEnd::Panic(e) => failure("backtest task panicked: ", &e, submitted_at, now),
    }
}

/// Whether a status and an event say that a job failed, and why.
pub open spec fn failed_with(r: (JobStatus, JobEventKind), why: Seq<char>, submitted_at: u64, now: u64) -> bool {
    &&& r.0.error matches Some(e) && e@ == why
    &&& r.0 == (JobStatus {
        error: r.0.error,
        submitted_at: Some(submitted_at),
        finished_at: Some(now),
        ..bare(JobState::Failed)
    })
    &&& r.1 matches JobEventKind::Failed { reason } && reason@ == why
}

fn failure(what: &str, why: &str, submitted_at: u64, now: u64) -> (r: (JobStatus, JobEventKind))
    ensures
        failed_with(r, what@ + why@, submitted_at, now),
{
    let mut e = what.to_owned();
    e.append(why);
    let reason = e.as_str().to_owned();
    (
        JobStatus {
            error: Some(e),
            submitted_at: Some(submitted_at),
            finished_at: Some(now),
            ..bare_status(JobState::Failed)
        },
        JobEventKind::Failed { reason },
    )
}

/// Where a job's result is stored.
pub open spec fn result_key_text(tenant_id: i64, job_id: Seq<char>) -> Seq<char> {
    "backtest/"@ + signed_decimal(tenant_id as int) + "/"@ + job_id + ".json"@
}

/// Where a job's result is stored.
pub fn result_key(tenant_id: i64, job_id: &str) -> (r: String)
    ensures
        r@ == result_key_text(tenant_id, job_id@),
{
    let mut s = "backtest/".to_owned();
    s.append(&signed_decimal_text(tenant_id));
    s.append("/");
    s.append(job_id);
    s.append(".json");
    s
}

/// The calendars that a broker may trade by.
#[derive(Clone, Copy, Debug, PartialEq, Eq, Structural)]
pub enum Market {
    Crypto,
    Stock,
}

/// The calendar of a broker, where a job names none.
pub fn default_market(broker: &str) -> (r: Market)
    ensures
        r == (if broker@ == "simplefx"@ { Market::Crypto } else { Market::Stock }),
{
    if same(broker, "simplefx") {
        Market::Crypto
    } else {
        Market::Stock
    }
}

/// The component that runs jobs.
#[derive(Debug)]
pub struct BacktestExecutor {
    pub id: String,
    pub inputs: Vec<String>,
    /// The most jobs that run at once.
    pub max_workers: usize,
    /// The seconds after which a user's slot frees itself.
    pub guard_ttl_secs: u64,
}

impl BacktestExecutor {
    /// How many jobs run at once: at least one.
    pub fn workers(&self) -> (r: usize)
        ensures
            r == (if self.max_workers >= 1 { self.max_workers } else { 1 }),
    {
        if self.max_workers >= 1 {
            self.max_workers
        } else {
            1
        }
    }
}

} // verus!
