//! The commands of the main shell.
use vstd::prelude::*;

use crate::json::{json_pretty, json_text, pretty_text, value_text};
use crate::repl::flags::{
    as_words, duration_of, line_arg, line_flag, non_empty, parse_duration, DurationError, Flags, UsageError,
};
use crate::text::{
    after_first_word, decimal, decimal_text, first_word, has_prefix, same, signed_decimal, signed_decimal_text,
    split_fields, split_first_word, split_words, starts_with, texts, trim, trimmed, words,
};

verus! {

/// The commands of the main shell.
#[derive(Clone, Copy, Debug, PartialEq, Eq, Structural)]
pub enum CommandKind {
    Help,
    Station,
    Query,
    Python,
    Julia,
    Stats,
    Plot,
    Vars,
    Sessions,
    Runner,
    Kernel,
    Pattern,
    Catalog,
    New,
    Use,
    Close,
    Save,
    Load,
}

/// The command that a word names.
pub open spec fn command_of(head: Seq<char>) -> Option<CommandKind> {
    if head == ":help"@ || head == ":h"@ {
        Some(CommandKind::Help)
    } else if head == ":station"@ {
        Some(CommandKind::Station)
    } else if head == ":query"@ {
        Some(CommandKind::Query)
    } else if head == ":py"@ || head == ":python"@ {
        Some(CommandKind::Python)
    } else if head == ":jl"@ || head == ":julia"@ {
        Some(CommandKind::Julia)
    } else if head == ":stats"@ {
        Some(CommandKind::Stats)
    } else if head == ":plot"@ {
        Some(CommandKind::Plot)
    } else if head == ":vars"@ || head == ":ls"@ {
        Some(CommandKind::Vars)
    } else if head == ":sessions"@ {
        Some(CommandKind::Sessions)
    } else if head == ":runner"@ {
        Some(CommandKind::Runner)
    } else if head == ":kernel"@ {
        Some(CommandKind::Kernel)
    } else if head == ":pattern"@ {
        Some(CommandKind::Pattern)
    } else if head == ":catalog"@ {
        Some(CommandKind::Catalog)
    } else if head == ":new"@ {
        Some(CommandKind::New)
    } else if head == ":use"@ {
        Some(CommandKind::Use)
    } else if head == ":close"@ {
        Some(CommandKind::Close)
    } else if head == ":save"@ {
        Some(CommandKind::Save)
    } else if head == ":load"@ {
        Some(CommandKind::Load)
    } else {
        None
    }
}

fn find_command(head: &str) -> (r: Option<CommandKind>)
    ensures
        r == command_of(head@),
{
    if same(head, ":help") || same(head, ":h") {
        Some(CommandKind::Help)
    } else if same(head, ":station") {
        Some(CommandKind::Station)
    } else if same(head, ":query") {
        Some(CommandKind::Query)
    } else if same(head, ":py") || same(head, ":python") {
        Some(CommandKind::Python)
    } else if same(head, ":jl") || same(head, ":julia") {
        Some(CommandKind::Julia)
    } else if same(head, ":stats") {
        Some(CommandKind::Stats)
    } else if same(head, ":plot") {
        Some(CommandKind::Plot)
    } else if same(head, ":vars") || same(head, ":ls") {
        Some(CommandKind::Vars)
    } else if same(head, ":sessions") {
        Some(CommandKind::Sessions)
    } else if same(head, ":runner") {
        Some(CommandKind::Runner)
    } else if same(head, ":kernel") {
        Some(CommandKind::Kernel)
    } else if same(head, ":pattern") {
        Some(CommandKind::Pattern)
    } else if same(head, ":catalog") {
        Some(CommandKind::Catalog)
    } else if same(head, ":new") {
        Some(CommandKind::New)
    } else if same(head, ":use") {
        Some(CommandKind::Use)
    } else if same(head, ":close") {
        Some(CommandKind::Close)
    } else if same(head, ":save") {
        Some(CommandKind::Save)
    } else if same(head, ":load") {
        Some(CommandKind::Load)
    } else {
        None
    }
}

fn quoted(a: &str, b: &str, c: &str) -> (r: UsageError)
    ensures
        r.message@ == a@ + b@ + c@,
{
    let mut message = a.to_owned();
    message.append(b);
    message.append(c);
    UsageError { message }
}

fn plain(a: &str) -> (r: UsageError)
    ensures
        r.message@ == a@,
{
    UsageError { message: a.to_owned() }
}

/// What is said to a line that is no command.
pub open spec fn not_a_command() -> Seq<char> {
    "interactive Rhai expressions are not wired here yet \u{2014} prefix analysis commands with `:` (see :help)"@
}

/// Tells which command a line is, and what follows its name.
pub fn route(line: &str) -> (r: Result<(CommandKind, String), UsageError>)
    ensures
        ({
            let head = first_word(line@);
            match r {
                Ok((kind, rest)) => command_of(head) == Some(kind) && rest@ == trimmed(after_first_word(line@)),
                Err(e) => command_of(head) is None && e.message@ == (if has_prefix(head, ":"@) {
                    "unknown command `"@ + head + "` \u{2014} try :help"@
                } else {
                    not_a_command()
                }),
            }
        }),
{
    let (head, rest) = split_first_word(line);
    match find_command(head) {
        Some(kind) => Ok((kind, trim(rest).to_owned())),
        None => {
            if starts_with(head, ":") {
                Err(quoted("unknown command `", head, "` \u{2014} try :help"))
            } else {
                Err(
                    plain(
                        "interactive Rhai expressions are not wired here yet \u{2014} prefix analysis commands with `:` (see :help)",
                    ),
                )
            }
        },
    }
}

/// The help on queries.
pub const HELP_QUERY: &'static str =
    ":query <metric> [--station <id>] [--stage raw|processed] [--from 24h] [--to 0]\nQueries a station (default: first registered); result stored as @N.";

/// The help on Python.
pub const HELP_PY: &'static str =
    ":py <code>\nRuns Python inside this session. Existing @N DataFrames referenced in the code are injected as pandas DataFrames. A variable named `result` is captured back (DataFrame -> new @N, else printed).";

/// The help on statistics.
pub const HELP_STATS: &'static str =
    ":stats describe <@var>\n:stats rolling <@var> [--window 1h] [--fn mean,std] [--col value]\n:stats quantile <@var> [--q 0.95] [--col value]\n:stats acf|adf <@var> [--lags 40] [--col value]\n:stats forecast <@var> [--order 1,1,1] [--steps 24] [--col value]";

/// The help on plots.
pub const HELP_PLOT: &'static str = ":plot <@var> [--type hist|line|dist|scatter|corr] [--out plot.png]";

/// The list of commands.
pub const HELP: &'static str =
    "commands:\n  :station list | :station describe <id>\n  :query <metric> [--station <id>] [--stage raw] [--from 24h]  query a station -> @N\n  :py                                             enter Python sub-REPL\n  :py <code>                                      single-shot Python (@N in, result out)\n  :jl                                             enter Julia sub-REPL\n  :jl <code>                                      single-shot Julia\n  :stats describe|rolling|quantile|acf|adf|forecast <@var> [...]\n  :plot <@var> [--type hist] [--out f.png]\n  :vars | :sessions | :new | :use <id> | :close <id>\n  :runner list | :runner connect <host:port> [name]\n  :kernel local | :kernel <name>                  switch execution backend\n  :pattern add <node> <pattern>                   add log pattern\n  :pattern get <node> <text>                      check text against patterns\n  :catalog <node> <query>                         search catalog entries\n  :save <file> | :load <file>\n  :help <command>   :quit";

/// The help on a topic, or the list of commands.
pub fn help(topic: &str) -> (r: &'static str)
    ensures
        r@ == ({
            let t = trimmed(topic@);
            if t == "query"@ {
                HELP_QUERY@
            } else if t == "py"@ {
                HELP_PY@
            } else if t == "stats"@ {
                HELP_STATS@
            } else if t == "plot"@ {
                HELP_PLOT@
            } else {
                HELP@
            }
        }),
{
    let t = trim(topic);
    if same(t, "query") {
        HELP_QUERY
    } else if same(t, "py") {
        HELP_PY
    } else if same(t, "stats") {
        HELP_STATS
    } else if same(t, "plot") {
        HELP_PLOT
    } else {
        HELP
    }
}

/// What a station command asks for.
#[derive(Debug)]
pub enum StationPlan {
    List,
    Describe { id: String },
}

/// Reads a station command.
pub fn station_cmd(rest: &str) -> (r: Result<StationPlan, UsageError>)
    ensures
        ({
            let sub = first_word(rest@);
            let arg = trimmed(after_first_word(rest@));
            match r {
                Ok(StationPlan::List) => sub.len() == 0 || sub == "list"@,
                Ok(StationPlan::Describe { id }) => sub == "describe"@ && trimmed(arg).len() > 0 && id@
                    == trimmed(arg),
                Err(e) => sub.len() > 0 && sub != "list"@ && e.message@ == (if sub == "describe"@ {
                    "station id required: :station describe <id>"@
                } else if sub == "use"@ {
                    "`current station` lives on the session \u{2014} use :query <metric> against a registered station id instead"@
                } else {
                    "unknown :station subcommand `"@ + sub + "` (list | describe)"@
                }) && (sub == "describe"@ ==> trimmed(arg).len() == 0),
            }
        }),
{
    let (sub, after) = split_first_word(rest);
    let arg = trim(after);
    proof {
        reveal_strlit("");
        if sub@.len() == 0 {
            assert(sub@ =~= ""@);
        }
    }
    if same(sub, "") || same(sub, "list") {
        Ok(StationPlan::List)
    } else if same(sub, "describe") {
        match non_empty(arg, "station id required: :station describe <id>") {
            Ok(id) => Ok(StationPlan::Describe { id: id.to_owned() }),
            Err(e) => Err(e),
        }
    } else if same(sub, "use") {
        Err(
            plain(
                "`current station` lives on the session \u{2014} use :query <metric> against a registered station id instead",
            ),
        )
    } else {
        Err(quoted("unknown :station subcommand `", sub, "` (list | describe)"))
    }
}

/// Which of a station's data is asked for.
#[derive(Clone, Copy, Debug, PartialEq, Eq, Structural)]
pub enum Stage {
    Raw,
    Processed,
}

impl Stage {
    /// The name of the stage.
    pub open spec fn text(self) -> Seq<char> {
        match self {
            Stage::Raw => "Raw"@,
            Stage::Processed => "Processed"@,
        }
    }

    /// The name of the stage.
    pub fn name(&self) -> (r: &'static str)
        ensures
            r@ == self.text(),
    {
        match self {
            Stage::Raw => "Raw",
            Stage::Processed => "Processed",
        }
    }
}

/// What a query asks for.
#[derive(Debug)]
pub struct QueryPlan {
    pub metric: String,
    pub stage: Stage,
    pub from: i64,
    pub to: i64,
    /// The station, where one is named.
    pub station: Option<String>,
}

/// Why a query cannot be run.
#[derive(Debug)]
pub enum QueryError {
    Usage(UsageError),
    /// The start is no duration; the message says why.
    From { error: DurationError, message: String },
}

/// How long ago a query starts, where it does not say so: a day.
pub const DEFAULT_FROM_SECS: i64 = 86400;

/// How long ago a query starts.
pub open spec fn from_ago(rest: Seq<char>) -> Result<int, DurationError> {
    match line_flag(rest, "from"@) {
        Some(spec) => duration_of(spec),
        None => Ok(DEFAULT_FROM_SECS as int),
    }
}

/// Describes a station: its description in JSON, or an error where there is none.
pub fn station_answer(id: &str, description: &Option<serde_json::Value>) -> (r: Result<String, UsageError>)
    ensures
        description matches Some(v) ==> (r matches Ok(s) && s@ == (match json_pretty(*v) {
            Some(text) => text,
            None => json_text(*v),
        })),
        description is None ==> (r matches Err(e) && e.message@ == "no station registered with id `"@ + id@ + "`"@),
{
    match description {
        Some(v) => match pretty_text(v) {
            Ok(s) => Ok(s),
            Err(_) => Ok(value_text(v)),
        },
        None => {
            let mut message = "no station registered with id `".to_owned();
            message.append(id);
            message.append("`");
            Err(UsageError { message })
        },
    }
}

/// How long ago a query ends: now, where it does not say a duration.
pub open spec fn to_ago(rest: Seq<char>) -> int {
    match line_flag(rest, "to"@) {
        Some(spec) => match duration_of(spec) {
            Ok(n) => n,
            Err(_) => 0,
        },
        None => 0,
    }
}

proof fn lemma_duration_bounds(spec: Seq<char>)
    ensures
        duration_of(spec) matches Ok(n) ==> 0 <= n <= i64::MAX,
{
    if duration_of(spec) is Ok {
        crate::repl::flags::durations_are_not_negative(spec);
    }
}

/// Reads a query, as of the time `now`.
pub fn query_cmd(rest: &str, now: i64) -> (r: Result<QueryPlan, QueryError>)
    requires
        from_ago(rest@) matches Ok(ago) ==> now - ago >= i64::MIN && now - to_ago(rest@) >= i64::MIN,
    ensures
        ({
            let metric = trimmed(line_arg(rest@, 0));
            match r {
                Err(QueryError::Usage(e)) => metric.len() == 0 && e.message@
                    == "usage: :query <metric> [--stage raw] [--from 24h]"@,
                Err(QueryError::From { error, message }) => {
                    &&& metric.len() > 0
                    &&& from_ago(rest@) == Err::<int, DurationError>(error)
                    &&& line_flag(rest@, "from"@) matches Some(spec) && message@ == error.text(spec)
                },
                Ok(p) => {
                    &&& metric.len() > 0
                    &&& p.metric@ == metric
                    &&& p.stage == (if line_flag(rest@, "stage"@) == Some("raw"@) {
                        Stage::Raw
                    } else {
                        Stage::Processed
                    })
                    &&& from_ago(rest@) is Ok
                    &&& p.from == now - from_ago(rest@)->Ok_0
                    &&& p.to == now - to_ago(rest@)
                    &&& p.station is Some <==> line_flag(rest@, "station"@) is Some
                    &&& p.station matches Some(s) ==> Some(s@) == line_flag(rest@, "station"@)
                },
            }
        }),
{
    let tokens = split_words(rest);
    let list = as_words(&tokens);
    let flags = Flags::parse(list.as_slice());
    let ghost line = rest@;
    assert(flags.arg_text(0) == line_arg(line, 0));
    let metric = match non_empty(flags.arg(0), "usage: :query <metric> [--stage raw] [--from 24h]") {
        Ok(m) => m,
        Err(e) => {
            return Err(QueryError::Usage(e));
        },
    };
    let stage = match flags.get("stage") {
        Some(s) => if same(s, "raw") {
            Stage::Raw
        } else {
            Stage::Processed
        },
        None => Stage::Processed,
    };
    let from_secs: i64 = match flags.get("from") {
        Some(spec) => {
            proof {
                lemma_duration_bounds(spec@);
            }
            match parse_duration(spec) {
                Ok(n) => n,
                Err(error) => {
                    return Err(QueryError::From { error, message: error.message(spec) });
                },
            }
        },
        None => DEFAULT_FROM_SECS,
    };
    let to_secs: i64 = match flags.get("to") {
        Some(spec) => {
            proof {
                lemma_duration_bounds(spec@);
            }
            match parse_duration(spec) {
                Ok(n) => n,
                Err(_) => 0,
            }
        },
        None => 0,
    };
    let station: Option<String> = match flags.get("station") {
        Some(s) => Some(s.to_owned()),
        None => None,
    };
    Ok(QueryPlan { metric: metric.to_owned(), stage, from: now - from_secs, to: now - to_secs, station })
}

/// Whether a station is registered.
pub open spec fn registered(ids: Seq<Seq<char>>, id: Seq<char>) -> bool {
    ids.contains(id)
}

/// The station that a query is put to: the one named; else one that is called
/// as the metric; else the first that is registered.
pub open spec fn station_for(ids: Seq<Seq<char>>, named: Option<Seq<char>>, metric: Seq<char>) -> Option<Seq<char>> {
    match named {
        Some(id) => if registered(ids, id) {
            Some(id)
        } else {
            None
        },
        None => if registered(ids, metric) {
            Some(metric)
        } else if ids.len() > 0 {
            Some(ids[0])
        } else {
            None
        },
    }
}

fn place_of(ids: &Vec<String>, id: &str) -> (r: Option<usize>)
    ensures
        r is Some <==> registered(texts(ids@), id@),
        r matches Some(i) ==> i < ids@.len() && ids@[i as int]@ == id@,
{
    let mut i: usize = 0;
    while i < ids.len()
        invariant
            i <= ids@.len(),
            forall|k: int| 0 <= k < i ==> texts(ids@)[k] != id@,
        decreases ids@.len() - i,
    {
        assert(texts(ids@)[i as int] == ids@[i as int]@);
        if same(&ids[i], id) {
            return Some(i);
        }
        i += 1;
    }
    None
}

/// Picks the station that a query is put to, of those that are registered.
pub fn pick_station(ids: &Vec<String>, named: &Option<String>, metric: &str) -> (r: Result<usize, UsageError>)
    ensures
        ({
            let want = match named {
                Some(s) => Some(s@),
                None => None,
            };
            let pick = station_for(texts(ids@), want, metric@);
            match r {
                Ok(i) => i < ids@.len() && pick == Some(ids@[i as int]@),
                Err(e) => pick is None && e.message@ == (match want {
                    Some(id) => "no station registered with id `"@ + id + "` \u{2014} see :station list"@,
                    None =>
                        "no station registered \u{2014} start the pipeline or pass an explicit station: :query <metric> --station <id>"@,
                }),
            }
        }),
{
    match named {
        Some(id) => match place_of(ids, id) {
            Some(i) => Ok(i),
            None => Err(quoted("no station registered with id `", id, "` \u{2014} see :station list")),
        },
        None => match place_of(ids, metric) {
            Some(i) => Ok(i),
            None => {
                if ids.len() > 0 {
                    assert(texts(ids@)[0] == ids@[0]@);
                    Ok(0)
                } else {
                    Err(
                        plain(
                            "no station registered \u{2014} start the pipeline or pass an explicit station: :query <metric> --station <id>",
                        ),
                    )
                }
            },
        },
    }
}

/// What is said of a query's result.
pub fn query_result(plan: &QueryPlan, rows: usize, var: &str) -> (r: String)
    ensures
        r@ == decimal(rows as nat) + " rows ["@ + plan.metric@ + " "@ + plan.stage.text() + " "@ + signed_decimal(
            plan.from as int,
        ) + ".."@ + signed_decimal(plan.to as int) + "] -> "@ + var@,
{
    let mut s = decimal_text(rows as u64);
    s.append(" rows [");
    s.append(&plan.metric);
    s.append(" ");
    s.append(plan.stage.name());
    s.append(" ");
    s.append(&signed_decimal_text(plan.from));
    s.append("..");
    s.append(&signed_decimal_text(plan.to));
    s.append("] -> ");
    s.append(var);
    s
}

/// What a runner command asks for.
#[derive(Debug)]
pub enum RunnerPlan {
    List,
    Connect { addr: String, name: String },
}

/// The name of a runner that is given none: its host.
pub open spec fn host_of(addr: Seq<char>) -> Seq<char> {
    crate::text::fields(addr, ':')[0]
}

/// Reads a runner command.
pub fn runner_cmd(rest: &str) -> (r: Result<RunnerPlan, UsageError>)
    ensures
        ({
            let sub = first_word(rest@);
            let args = words(trimmed(after_first_word(rest@)));
            match r {
                Ok(RunnerPlan::List) => sub.len() == 0 || sub == "list"@,
                Ok(RunnerPlan::Connect { addr, name }) => sub == "connect"@ && args.len() > 0 && addr@ == trimmed(
                    args[0],
                ) && name@ == (if args.len() > 1 {
                    args[1]
                } else {
                    host_of(trimmed(args[0]))
                }),
                Err(e) => e.message@ == (if sub == "connect"@ {
                    "usage: :runner connect <host:port> [name]"@
                } else {
                    "unknown :runner subcommand `"@ + sub + "` (list | connect <addr> [name])"@
                }) && (sub == "connect"@ ==> args.len() == 0 || trimmed(args[0]).len() == 0) && sub.len() > 0 && sub
                    != "list"@,
            }
        }),
{
    let (sub, after) = split_first_word(rest);
    let parts = split_words(trim(after));
    proof {
        reveal_strlit("");
        if sub@.len() == 0 {
            assert(sub@ =~= ""@);
        }
    }
    if same(sub, "") || same(sub, "list") {
        return Ok(RunnerPlan::List);
    }
    if !same(sub, "connect") {
        return Err(quoted("unknown :runner subcommand `", sub, "` (list | connect <addr> [name])"));
    }
    if parts.len() == 0 {
        return Err(plain("usage: :runner connect <host:port> [name]"));
    }
    assert(texts(parts@)[0] == parts@[0]@);
    match non_empty(&parts[0], "usage: :runner connect <host:port> [name]") {
        Err(e) => Err(e),
        Ok(addr) => {
            let name: String;
            if parts.len() > 1 {
                assert(texts(parts@)[1] == parts@[1]@);
                name = parts[1].as_str().to_owned();
            } else {
                let pieces = split_fields(addr, ':');
                assert(texts(pieces@)[0] == pieces@[0]@);
                name = pieces[0].as_str().to_owned();
            }
            Ok(RunnerPlan::Connect { addr: addr.to_owned(), name })
        },
    }
}

/// Which backend a session is moved to.
#[derive(Debug)]
pub enum KernelPlan {
    Local,
    Named { name: String },
}

/// Reads a kernel command.
pub fn kernel_cmd(rest: &str) -> (r: Result<KernelPlan, UsageError>)
    ensures
        ({
            let t = trimmed(rest@);
            match r {
                Err(e) => t.len() == 0 && e.message@ == "usage: :kernel local | :kernel <runner-name>"@,
                Ok(KernelPlan::Local) => t == "local"@,
                Ok(KernelPlan::Named { name }) => t.len() > 0 && t != "local"@ && name@ == t,
            }
        }),
{
    match non_empty(rest, "usage: :kernel local | :kernel <runner-name>") {
        Err(e) => Err(e),
        Ok(t) => if same(t, "local") {
            Ok(KernelPlan::Local)
        } else {
            Ok(KernelPlan::Named { name: t.to_owned() })
        },
    }
}

/// What is said where there is no such backend.
pub fn no_backend(name: &str) -> (r: UsageError)
    ensures
        r.message@ == "no backend named `"@ + name@ + "` \u{2014} see :runner list"@,
{
    quoted("no backend named `", name, "` \u{2014} see :runner list")
}

/// What a pattern command asks for.
#[derive(Debug)]
pub enum PatternPlan {
    Add { node: String, pattern: String },
    Get { node: String, text: String },
}

/// The node and the text of a pattern command.
pub open spec fn node_and_text(args: Seq<char>) -> (Seq<char>, Seq<char>) {
    (trimmed(first_word(args)), trimmed(after_first_word(args)))
}

/// Reads a pattern command.
pub fn pattern_cmd(rest: &str) -> (r: Result<PatternPlan, UsageError>)
    ensures
        ({
            let sub = first_word(rest@);
            let (node, text) = node_and_text(trimmed(after_first_word(rest@)));
            let full = node.len() > 0 && text.len() > 0;
            match r {
                Ok(PatternPlan::Add { node: n, pattern }) => sub == "add"@ && full && n@ == node && pattern@ == text,
                Ok(PatternPlan::Get { node: n, text: t }) => sub == "get"@ && full && n@ == node && t@ == text,
                Err(e) => e.message@ == (if sub == "add"@ {
                    "usage: :pattern add <node> <pattern>"@
                } else if sub == "get"@ {
                    "usage: :pattern get <node> <text>"@
                } else {
                    "unknown :pattern subcommand `"@ + sub + "` (add | get)"@
                }) && (sub == "add"@ || sub == "get"@ ==> !full),
            }
        }),
{
    let (sub, after) = split_first_word(rest);
    let args = trim(after);
    let (first, second) = split_first_word(args);
    let node = trim(first);
    let text = trim(second);
    let full = !crate::repl::is_blank(node) && !crate::repl::is_blank(text);
    if same(sub, "add") {
        if full {
            Ok(PatternPlan::Add { node: node.to_owned(), pattern: text.to_owned() })
        } else {
            Err(plain("usage: :pattern add <node> <pattern>"))
        }
    } else if same(sub, "get") {
        if full {
            Ok(PatternPlan::Get { node: node.to_owned(), text: text.to_owned() })
        } else {
            Err(plain("usage: :pattern get <node> <text>"))
        }
    } else {
        Err(quoted("unknown :pattern subcommand `", sub, "` (add | get)"))
    }
}

/// What is said of a text: whether it is known.
pub fn pattern_answer(known: bool, text: &str) -> (r: String)
    ensures
        r@ == (if known { "KNOWN"@ } else { "NEW"@ }) + " \u{2192} "@ + text@,
{
    let mut s = if known { "KNOWN".to_owned() } else { "NEW".to_owned() };
    s.append(" \u{2192} ");
    s.append(text);
    s
}

/// Reads a search of a catalog: the node, and what is searched for.
pub fn catalog_cmd(rest: &str) -> (r: Result<(String, String), UsageError>)
    ensures
        ({
            let (node, pattern) = node_and_text(rest@);
            match r {
                Ok((n, p)) => node.len() > 0 && n@ == node && p@ == pattern,
                Err(e) => node.len() == 0 && e.message@ == "usage: :catalog <node> <query>"@,
            }
        }),
{
    let (first, second) = split_first_word(rest);
    let node = trim(first);
    if crate::repl::is_blank(node) {
        return Err(plain("usage: :catalog <node> <query>"));
    }
    Ok((node.to_owned(), trim(second).to_owned()))
}

/// How many of the first `n` ids start with a prefix.
pub open spec fn matching(ids: Seq<Seq<char>>, prefix: Seq<char>, n: nat) -> nat
    decreases n,
{
    if n == 0 {
        0
    } else {
        matching(ids, prefix, (n - 1) as nat) + if has_prefix(ids[n - 1], prefix) {
            1nat
        } else {
            0nat
        }
    }
}

/// Finds the one session whose id starts with a prefix.
pub fn find_by_prefix(ids: &Vec<String>, prefix: &str) -> (r: Result<usize, UsageError>)
    ensures
        ({
            let n = matching(texts(ids@), prefix@, ids@.len());
            match r {
                Ok(i) => n == 1 && i < ids@.len() && has_prefix(ids@[i as int]@, prefix@),
                Err(e) => n != 1 && e.message@ == (if n == 0 {
                    "no session matching `"@ + prefix@ + "`"@
                } else {
                    "ambiguous prefix `"@ + prefix@ + "` ("@ + decimal(n) + " matches)"@
                }),
            }
        }),
{
    let mut found: usize = 0;
    let mut count: usize = 0;
    let mut i: usize = 0;
    let ghost all = texts(ids@);
    while i < ids.len()
        invariant
            i <= ids@.len(),
            all == texts(ids@),
            count == matching(all, prefix@, i as nat),
            count <= i,
            count > 0 ==> found < ids@.len() && has_prefix(ids@[found as int]@, prefix@),
        decreases ids@.len() - i,
    {
        assert(all[i as int] == ids@[i as int]@);
        if starts_with(&ids[i], prefix) {
            found = i;
            count += 1;
        }
        i += 1;
    }
    if count == 1 {
        Ok(found)
    } else if count == 0 {
        Err(quoted("no session matching `", prefix, "`"))
    } else {
        let mut message = "ambiguous prefix `".to_owned();
        message.append(prefix);
        message.append("` (");
        message.append(&decimal_text(count as u64));
        message.append(" matches)");
        Err(UsageError { message })
    }
}

/// A prefix that finds a session finds no other: of two places whose ids start
/// with it, there is only one.
pub proof fn a_prefix_finds_one_session(ids: Seq<Seq<char>>, prefix: Seq<char>, i: int, j: int)
    requires
        matching(ids, prefix, ids.len()) == 1,
        0 <= i < ids.len(),
        0 <= j < ids.len(),
        has_prefix(ids[i], prefix),
        has_prefix(ids[j], prefix),
    ensures
        i == j,
{
    if i < j {
        lemma_two_match(ids, prefix, i, j, ids.len());
    } else if j < i {
        lemma_two_match(ids, prefix, j, i, ids.len());
    }
}

proof fn lemma_two_match(ids: Seq<Seq<char>>, prefix: Seq<char>, i: int, j: int, n: nat)
    requires
        0 <= i < j < n <= ids.len(),
        has_prefix(ids[i], prefix),
        has_prefix(ids[j], prefix),
    ensures
        matching(ids, prefix, n) >= 2,
    decreases n,
{
    if j < n - 1 {
        lemma_two_match(ids, prefix, i, j, (n - 1) as nat);
    } else {
        lemma_one_match(ids, prefix, i, (n - 1) as nat);
    }
}

proof fn lemma_one_match(ids: Seq<Seq<char>>, prefix: Seq<char>, i: int, n: nat)
    requires
        0 <= i < n <= ids.len(),
        has_prefix(ids[i], prefix),
    ensures
        matching(ids, prefix, n) >= 1,
    decreases n,
{
    if i < n - 1 {
        lemma_one_match(ids, prefix, i, (n - 1) as nat);
    }
}

/// Finds the session to go on with.
pub fn use_cmd(ids: &Vec<String>, prefix: &str) -> (r: Result<usize, UsageError>)
    ensures
        ({
            let p = trimmed(prefix@);
            let n = matching(texts(ids@), p, ids@.len());
            match r {
                Ok(i) => p.len() > 0 && n == 1 && i < ids@.len() && has_prefix(ids@[i as int]@, p),
                Err(e) => e.message@ == (if p.len() == 0 {
                    "usage: :use <session-id-prefix>"@
                } else if n == 0 {
                    "no session matching `"@ + p + "`"@
                } else {
                    "ambiguous prefix `"@ + p + "` ("@ + decimal(n) + " matches)"@
                }) && (p.len() == 0 || n != 1),
            }
        }),
{
    match non_empty(prefix, "usage: :use <session-id-prefix>") {
        Err(e) => Err(e),
        Ok(p) => find_by_prefix(ids, p),
    }
}

proof fn lemma_two_matches(ids: Seq<Seq<char>>, prefix: Seq<char>, i: int, j: int, n: nat)
    requires
        0 <= i < j < n <= ids.len(),
        has_prefix(ids[i], prefix),
        has_prefix(ids[j], prefix),
    ensures
        matching(ids, prefix, n) >= 2,
    decreases n,
{
    if j == n - 1 {
        lemma_one_match(ids, prefix, i, (n - 1) as nat);
    } else {
        lemma_two_matches(ids, prefix, i, j, (n - 1) as nat);
    }
}

/// Whether a prefix is that of the current session, and the session is there.
pub open spec fn names_current(ids: Seq<Seq<char>>, current: Seq<char>, prefix: Seq<char>) -> bool {
    registered(ids, current) && has_prefix(current, prefix)
}

/// Finds the session to close. The current session is not closed.
pub fn close_cmd(ids: &Vec<String>, current: &str, prefix: &str) -> (r: Result<usize, UsageError>)
    ensures
        ({
            let p = trimmed(prefix@);
            let n = matching(texts(ids@), p, ids@.len());
            match r {
                Ok(i) => p.len() > 0 && n == 1 && i < ids@.len() && has_prefix(ids@[i as int]@, p) && !names_current(
                    texts(ids@),
                    current@,
                    p,
                ),
                Err(e) => {
                    ||| p.len() == 0 && e.message@ == "usage: :close <session-id-prefix>"@
                    ||| p.len() > 0 && n == 0 && e.message@ == "no session matching `"@ + p + "`"@
                    ||| p.len() > 0 && n > 1 && e.message@ == "ambiguous prefix `"@ + p + "` ("@ + decimal(n)
                        + " matches)"@
                    ||| p.len() > 0 && n == 1 && names_current(texts(ids@), current@, p) && e.message@
                        == "refusing to close the current session \u{2014} :use another or :new first"@
                },
            }
        }),
{
    match non_empty(prefix, "usage: :close <session-id-prefix>") {
        Err(e) => Err(e),
        Ok(p) => match find_by_prefix(ids, p) {
            Err(e) => Err(e),
            Ok(i) => if same(&ids[i], current) {
                assert(texts(ids@)[i as int] == current@);
                Err(plain("refusing to close the current session \u{2014} :use another or :new first"))
            } else {
                proof {
                    let all = texts(ids@);
                    assert(all[i as int] == ids@[i as int]@);
                    if names_current(all, current@, p@) {
                        let k = choose|k: int| 0 <= k < all.len() && all[k] == current@;
                        if k < i {
                            lemma_two_matches(all, p@, k, i as int, all.len());
                        } else {
                            lemma_two_matches(all, p@, i as int, k, all.len());
                        }
                    }
                }
                Ok(i)
            },
        },
    }
}

/// The row of a session in a list; the current one is marked.
pub fn session_row(id: &str, current: &str, status: &str, created: &str) -> (r: Vec<String>)
    ensures
        texts(r@) == seq![if id@ == current@ { id@ + "*"@ } else { id@ }, status@, created@],
{
    let mut first = id.to_owned();
    if same(id, current) {
        first.append("*");
    }
    let mut row: Vec<String> = Vec::new();
    row.push(first);
    row.push(status.to_owned());
    row.push(created.to_owned());
    assert(texts(row@) =~= seq![if id@ == current@ { id@ + "*"@ } else { id@ }, status@, created@]);
    row
}

} // verus!
