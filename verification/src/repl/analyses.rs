//! Statistics and plots, which run as code in a kernel, and what is made of the
//! kernel's replies.
use vstd::prelude::*;

use crate::repl::flags::{as_words, line_arg, line_flag, non_empty, Flags, UsageError};
use crate::text::{
    after_last, decimal, decimal_text, fields, is_after_last, same, split_fields, split_words, texts, trim, trimmed,
};

verus! {

/// A text between quotes, with what needs it escaped.
pub uninterp spec fn quoted_text(s: Seq<char>) -> Seq<char>;

/// A text between quotes.
///
/// Formats a `str` with `{:?}`, its `Debug` of the standard library. Claims that
/// the result depends on the text alone.
#[verifier::external_body]
fn quote(s: &str) -> (r: String)
    ensures
        r@ == quoted_text(s@),
{
    format!("{s:?}")
}

/// What a statistics command asks for.
#[derive(Debug)]
pub struct StatsArgs {
    pub sub: String,
    pub var: String,
    /// The column, between quotes.
    pub col: String,
    /// The window, between quotes.
    pub window: String,
    /// The functions, each between quotes.
    pub fns: Vec<String>,
    pub q: String,
    pub lags: String,
    pub order: String,
    pub steps: String,
}

/// The texts, with commas between them.
pub open spec fn comma_joined(v: Seq<Seq<char>>) -> Seq<char>
    decreases v.len(),
{
    if v.len() == 0 {
        Seq::empty()
    } else if v.len() == 1 {
        v[0]
    } else {
        comma_joined(v.drop_last()) + ","@ + v.last()
    }
}

fn join_commas(v: &Vec<String>) -> (r: String)
    ensures
        r@ == comma_joined(texts(v@)),
{
    let mut out = String::new();
    let mut i: usize = 0;
    let ghost all = texts(v@);
    assert(out@ =~= comma_joined(all.take(0)));
    while i < v.len()
        invariant
            i <= v@.len(),
            all == texts(v@),
            out@ == comma_joined(all.take(i as int)),
        decreases v@.len() - i,
    {
        let ghost before = out@;
        if i > 0 {
            out.append(",");
        }
        out.append(&v[i]);
        proof {
            let next = all.take(i + 1);
            assert(next.drop_last() =~= all.take(i as int));
            assert(next.last() == v@[i as int]@);
            if i == 0 {
                assert(out@ =~= next[0]);
            } else {
                assert(out@ =~= before + ","@ + next.last());
            }
        }
        i += 1;
    }
    assert(all.take(i as int) =~= all);
    out
}

impl StatsArgs {
    /// The column of the frame that a statistic is taken of.
    pub open spec fn series(self) -> Seq<char> {
        self.var@ + "["@ + self.col@ + "]"@
    }

    /// The code that a command runs.
    pub open spec fn code(self) -> Option<Seq<char>> {
        let sub = self.sub@;
        if sub == "describe"@ {
            Some("result = opsense_stats.describe("@ + self.var@ + ")"@)
        } else if sub == "rolling"@ {
            Some(
                "result = opsense_stats.rolling("@ + self.var@ + ", "@ + self.window@ + ", ["@ + comma_joined(
                    texts(self.fns@),
                ) + "])"@,
            )
        } else if sub == "quantile"@ {
            Some("result = opsense_stats.quantile("@ + self.series() + ", "@ + self.q@ + ")"@)
        } else if sub == "acf"@ {
            Some("result = opsense_stats.acf("@ + self.series() + ", nlags="@ + self.lags@ + ")"@)
        } else if sub == "adf"@ || sub == "adftest"@ {
            Some("result = opsense_stats.adf_test("@ + self.series() + ")"@)
        } else if sub == "forecast"@ {
            Some(
                "result = opsense_stats.arima_forecast("@ + self.series() + ", ("@ + self.order@ + "), "@ + self.steps@
                    + ").to_frame('forecast')"@,
            )
        } else {
            None
        }
    }
}

fn series_text(a: &StatsArgs) -> (r: String)
    ensures
        r@ == a.series(),
{
    let mut s = a.var.as_str().to_owned();
    s.append("[");
    s.append(&a.col);
    s.append("]");
    s
}

/// The code that a statistics command runs.
pub fn stats_code(a: &StatsArgs) -> (r: Result<String, UsageError>)
    ensures
        match r {
            Ok(s) => a.code() == Some(s@),
            Err(e) => a.code() is None && e.message@ == "unknown :stats subcommand `"@ + a.sub@
                + "` \u{2014} see :help stats"@,
        },
{
    if same(&a.sub, "describe") {
        let mut s = "result = opsense_stats.describe(".to_owned();
        s.append(&a.var);
        s.append(")");
        Ok(s)
    } else if same(&a.sub, "rolling") {
        let mut s = "result = opsense_stats.rolling(".to_owned();
        s.append(&a.var);
        s.append(", ");
        s.append(&a.window);
        s.append(", [");
        s.append(&join_commas(&a.fns));
        s.append("])");
        Ok(s)
    } else if same(&a.sub, "quantile") {
        let mut s = "result = opsense_stats.quantile(".to_owned();
        s.append(&series_text(a));
        s.append(", ");
        s.append(&a.q);
        s.append(")");
        Ok(s)
    } else if same(&a.sub, "acf") {
        let mut s = "result = opsense_stats.acf(".to_owned();
        s.append(&series_text(a));
        s.append(", nlags=");
        s.append(&a.lags);
        s.append(")");
        Ok(s)
    } else if same(&a.sub, "adf") || same(&a.sub, "adftest") {
        let mut s = "result = opsense_stats.adf_test(".to_owned();
        s.append(&series_text(a));
        s.append(")");
        Ok(s)
    } else if same(&a.sub, "forecast") {
        let mut s = "result = opsense_stats.arima_forecast(".to_owned();
        s.append(&series_text(a));
        s.append(", (");
        s.append(&a.order);
        s.append("), ");
        s.append(&a.steps);
        s.append(").to_frame('forecast')");
        Ok(s)
    } else {
        let mut message = "unknown :stats subcommand `".to_owned();
        message.append(&a.sub);
        message.append("` \u{2014} see :help stats");
        Err(UsageError { message })
    }
}

/// The value of a flag of a line, or a default.
pub open spec fn flag_or(line: Seq<char>, name: Seq<char>, default: Seq<char>) -> Seq<char> {
    match line_flag(line, name) {
        Some(v) => v,
        None => default,
    }
}

/// The texts of a list, each between quotes.
pub open spec fn all_quoted(v: Seq<Seq<char>>) -> Seq<Seq<char>> {
    Seq::new(v.len(), |i: int| quoted_text(v[i]))
}

/// Whether these are the arguments of a line.
pub open spec fn are_args_of(line: Seq<char>, a: StatsArgs) -> bool {
    &&& a.sub@ == line_arg(line, 0)
    &&& a.var@ == line_arg(line, 1)
    &&& a.col@ == quoted_text(flag_or(line, "col"@, "value"@))
    &&& a.window@ == quoted_text(flag_or(line, "window"@, "1h"@))
    &&& texts(a.fns@) == all_quoted(fields(flag_or(line, "fn"@, "mean"@), ','))
    &&& a.q@ == flag_or(line, "q"@, "0.95"@)
    &&& a.lags@ == flag_or(line, "lags"@, "40"@)
    &&& a.order@ == flag_or(line, "order"@, "1,1,1"@)
    &&& a.steps@ == flag_or(line, "steps"@, "24"@)
}

fn quote_all(v: &Vec<String>) -> (r: Vec<String>)
    ensures
        texts(r@) == all_quoted(texts(v@)),
{
    let mut out: Vec<String> = Vec::new();
    let mut i: usize = 0;
    let ghost all = all_quoted(texts(v@));
    while i < v.len()
        invariant
            i <= v@.len(),
            all == all_quoted(texts(v@)),
            texts(out@) == all.take(i as int),
        decreases v@.len() - i,
    {
        let ghost before = out@;
        out.push(quote(&v[i]));
        assert(texts(out@) =~= texts(before).push(quoted_text(v@[i as int]@)));
        i += 1;
        assert(all.take(i as int) =~= all.take(i - 1).push(all[i - 1]));
    }
    assert(all.take(i as int) =~= all);
    out
}

fn value_or<'a>(flags: &Flags<'a>, name: &str, default: &'a str) -> (r: &'a str)
    ensures
        r@ == (match crate::repl::flags::flag_value(crate::repl::flags::flag_texts(flags.values@), name@) {
            Some(v) => v,
            None => default@,
        }),
{
    match flags.get(name) {
        Some(v) => v,
        None => default,
    }
}

/// Reads a statistics command.
pub fn stats_args(rest: &str) -> (r: StatsArgs)
    ensures
        are_args_of(rest@, r),
{
    let tokens = split_words(rest);
    let list = as_words(&tokens);
    let flags = Flags::parse(list.as_slice());
    let ghost line = rest@;
    assert(flags.arg_text(0) == line_arg(line, 0));
    assert(flags.arg_text(1) == line_arg(line, 1));
    let fns = quote_all(&split_fields(value_or(&flags, "fn", "mean"), ','));
    StatsArgs {
        sub: flags.arg(0).to_owned(),
        var: flags.arg(1).to_owned(),
        col: quote(value_or(&flags, "col", "value")),
        window: quote(value_or(&flags, "window", "1h")),
        fns,
        q: value_or(&flags, "q", "0.95").to_owned(),
        lags: value_or(&flags, "lags", "40").to_owned(),
        order: value_or(&flags, "order", "1,1,1").to_owned(),
        steps: value_or(&flags, "steps", "24").to_owned(),
    }
}

/// The code that a line of the statistics command runs.
pub fn stats_cmd(rest: &str) -> (r: Result<String, UsageError>)
    ensures
        exists|a: StatsArgs| #[trigger]
            are_args_of(rest@, a) && match r {
                Ok(s) => a.code() == Some(s@),
                Err(e) => a.code() is None && e.message@ == "unknown :stats subcommand `"@ + a.sub@
                    + "` \u{2014} see :help stats"@,
            },
{
    let a = stats_args(rest);
    let r = stats_code(&a);
    assert(are_args_of(rest@, a));
    r
}

/// The function that draws a type of plot.
pub open spec fn plot_function(kind: Seq<char>) -> Option<Seq<char>> {
    if kind == "hist"@ {
        Some("plot_hist"@)
    } else if kind == "line"@ {
        Some("plot_line"@)
    } else if kind == "dist"@ {
        Some("plot_dist"@)
    } else if kind == "scatter"@ {
        Some("plot_scatter"@)
    } else if kind == "corr"@ {
        Some("plot_corr"@)
    } else {
        None
    }
}

fn find_plot(kind: &str) -> (r: Option<&'static str>)
    ensures
        r is Some <==> plot_function(kind@) is Some,
        r matches Some(f) ==> Some(f@) == plot_function(kind@),
{
    if same(kind, "hist") {
        Some("plot_hist")
    } else if same(kind, "line") {
        Some("plot_line")
    } else if same(kind, "dist") {
        Some("plot_dist")
    } else if same(kind, "scatter") {
        Some("plot_scatter")
    } else if same(kind, "corr") {
        Some("plot_corr")
    } else {
        None
    }
}

/// What a plot command asks for: the code to run, and the file to write.
#[derive(Debug)]
pub struct PlotPlan {
    pub code: String,
    pub out_path: String,
}

/// Reads a plot command.
pub fn plot_cmd(rest: &str) -> (r: Result<PlotPlan, UsageError>)
    ensures
        ({
            let var = trimmed(line_arg(rest@, 0));
            let kind = flag_or(rest@, "type"@, "hist"@);
            match r {
                Ok(p) => {
                    &&& var.len() > 0
                    &&& plot_function(kind) is Some
                    &&& p.code@ == "result = opsense_plots."@ + plot_function(kind)->0 + "("@ + var + ")"@
                    &&& p.out_path@ == flag_or(rest@, "out"@, "opsense_plot_"@ + kind + ".png"@)
                },
                Err(e) => {
                    ||| var.len() == 0 && e.message@ == "usage: :plot <@var> [--type hist] [--out f.png]"@
                    ||| var.len() > 0 && plot_function(kind) is None && e.message@ == "unknown plot type `"@ + kind
                        + "` (hist|line|dist|scatter|corr)"@
                },
            }
        }),
{
    let tokens = split_words(rest);
    let list = as_words(&tokens);
    let flags = Flags::parse(list.as_slice());
    let ghost line = rest@;
    assert(flags.arg_text(0) == line_arg(line, 0));
    let var = match non_empty(flags.arg(0), "usage: :plot <@var> [--type hist] [--out f.png]") {
        Ok(v) => v,
        Err(e) => {
            return Err(e);
        },
    };
    let kind = value_or(&flags, "type", "hist");
    match find_plot(kind) {
        None => {
            let mut message = "unknown plot type `".to_owned();
            message.append(kind);
            message.append("` (hist|line|dist|scatter|corr)");
            Err(UsageError { message })
        },
        Some(function) => {
            let mut code = "result = opsense_plots.".to_owned();
            code.append(function);
            code.append("(");
            code.append(var);
            code.append(")");
            let mut path = "opsense_plot_".to_owned();
            path.append(kind);
            path.append(".png");
            let out_path = value_or(&flags, "out", &path).to_owned();
            Ok(PlotPlan { code, out_path })
        },
    }
}

/// Why a text is no base64, as the `base64` crate says it.
#[verifier::external_type_specification]
#[verifier::external_body]
pub struct ExDecodeError(base64::DecodeError);

/// The bytes that a base64 text stands for; nothing where it is none.
pub uninterp spec fn decoded(s: Seq<char>) -> Option<Seq<u8>>;

/// Reads a base64 text.
///
/// Calls `base64::Engine::decode` of the standard alphabet, with padding. Claims
/// that whether it succeeds, and the bytes it gives, depend on the text alone.
#[verifier::external_body]
fn decode(s: &str) -> (r: Result<Vec<u8>, base64::DecodeError>)
    ensures
        r is Ok <==> decoded(s@) is Some,
        r matches Ok(b) ==> decoded(s@) == Some(b@),
{
    base64::Engine::decode(&base64::engine::general_purpose::STANDARD, s)
}

/// Whether `b` is the base64 text of a plot, which is a data address: what
/// follows the last mention of the encoding, without the space around it.
pub open spec fn is_plot_data(address: Seq<char>, b: Seq<char>) -> bool {
    exists|tail: Seq<char>| #[trigger] is_after_last(trimmed(address), "base64,"@, tail) && b == trimmed(tail)
}

/// The base64 text of a plot.
pub fn plot_data<'a>(address: &'a str) -> (r: &'a str)
    ensures
        is_plot_data(address@, r@),
{
    let tail = after_last(trim(address), "base64,");
    assert(is_after_last(trimmed(address@), "base64,"@, tail@));
    trim(tail)
}

/// The image of a plot.
pub fn plot_image(address: &str) -> (r: Result<Vec<u8>, base64::DecodeError>)
    ensures
        exists|b: Seq<char>| #[trigger]
            is_plot_data(address@, b) && match r {
                Ok(v) => decoded(b) == Some(v@),
                Err(_) => decoded(b) is None,
            },
{
    let data = plot_data(address);
    assert(is_plot_data(address@, data@));
    decode(data)
}

/// What is said of a plot that was written.
pub fn plot_saved(bytes: usize, path: &str) -> (r: String)
    ensures
        r@ == "saved "@ + decimal(bytes as nat) + " bytes -> "@ + path@,
{
    let mut s = "saved ".to_owned();
    s.append(&decimal_text(bytes as u64));
    s.append(" bytes -> ");
    s.append(path);
    s
}

/// A kernel's reply.
#[derive(Debug)]
pub struct KernelReply {
    /// What the code printed.
    pub stdout: String,
    /// Its result, as text.
    pub text: Option<String>,
    /// Its result, as a frame of so many rows and columns.
    pub frame: Option<(usize, usize)>,
    pub error: Option<String>,
}

/// What comes of code that was run for a command.
#[derive(Debug)]
pub enum Outcome {
    /// It failed.
    Failed(String),
    /// It gave a frame, to be kept under a name.
    Frame { summary: String },
    /// It gave a text.
    Text(String),
}

/// The text of an outcome.
pub open spec fn outcome_of(reply: KernelReply, ms: u64) -> (int, Seq<char>) {
    if reply.error is Some {
        (0, reply.error->0@)
    } else if reply.frame is Some {
        (
            1,
            decimal((reply.frame->0).0 as nat) + " rows x "@ + decimal((reply.frame->0).1 as nat) + " cols ("@ + decimal(
                ms as nat,
            ) + " ms)"@,
        )
    } else if reply.stdout@.len() > 0 {
        (2, reply.stdout@)
    } else if reply.text is Some {
        (2, reply.text->0@)
    } else {
        (2, "ok ("@ + decimal(ms as nat) + " ms)"@)
    }
}

/// What comes of code that was run for a command: an error goes before a frame,
/// a frame before what was printed, and that before a text.
pub fn outcome(reply: &KernelReply, ms: u64) -> (r: Outcome)
    ensures
        match r {
            Outcome::Failed(s) => outcome_of(*reply, ms) == (0int, s@),
            Outcome::Frame { summary } => outcome_of(*reply, ms) == (1int, summary@),
            Outcome::Text(s) => outcome_of(*reply, ms) == (2int, s@),
        },
{
    if let Some(e) = &reply.error {
        return Outcome::Failed(e.as_str().to_owned());
    }
    if let Some((rows, cols)) = &reply.frame {
        let mut s = decimal_text(*rows as u64);
        s.append(" rows x ");
        s.append(&decimal_text(*cols as u64));
        s.append(" cols (");
        s.append(&decimal_text(ms));
        s.append(" ms)");
        return Outcome::Frame { summary: s };
    }
    if !crate::repl::is_blank(&reply.stdout) {
        return Outcome::Text(reply.stdout.as_str().to_owned());
    }
    match &reply.text {
        Some(t) => Outcome::Text(t.as_str().to_owned()),
        None => {
            let mut s = "ok (".to_owned();
            s.append(&decimal_text(ms));
            s.append(" ms)");
            Outcome::Text(s)
        },
    }
}

/// What is said of a result that is kept under a name.
pub fn stored_as(summary: &str, var: &str) -> (r: String)
    ensures
        r@ == summary@ + " -> "@ + var@,
{
    let mut s = summary.to_owned();
    s.append(" -> ");
    s.append(var);
    s
}

/// What a kernel's shell shows of a result.
#[derive(Debug)]
pub enum Shown {
    Nothing,
    Out(String),
    Error(String),
}

/// What a kernel's shell shows: first what was printed, where anything was; then
/// the text, else the size of the frame, else the error.
pub fn shell_shows(reply: &KernelReply) -> (r: (Option<String>, Shown))
    ensures
        r.0 is Some <==> reply.stdout@.len() > 0,
        r.0 matches Some(s) ==> s@ == reply.stdout@,
        reply.text matches Some(t) ==> (r.1 matches Shown::Out(s) && s@ == t@),
        reply.text is None && reply.frame is Some ==> (r.1 matches Shown::Out(s) && s@ == decimal(
            (reply.frame->0).0 as nat,
        ) + " rows \u{d7} "@ + decimal((reply.frame->0).1 as nat) + " cols"@),
        reply.text is None && reply.frame is None && reply.error is Some ==> (r.1 matches Shown::Error(s) && s@
            == reply.error->0@),
        reply.text is None && reply.frame is None && reply.error is None ==> r.1 is Nothing,
{
    let printed: Option<String> = if crate::repl::is_blank(&reply.stdout) {
        None
    } else {
        Some(reply.stdout.as_str().to_owned())
    };
    let shown: Shown;
    if let Some(t) = &reply.text {
        shown = Shown::Out(t.as_str().to_owned());
    } else if let Some((rows, cols)) = &reply.frame {
        let mut s = decimal_text(*rows as u64);
        s.append(" rows \u{d7} ");
        s.append(&decimal_text(*cols as u64));
        s.append(" cols");
        shown = Shown::Out(s);
    } else if let Some(e) = &reply.error {
        shown = Shown::Error(e.as_str().to_owned());
    } else {
        shown = Shown::Nothing;
    }
    (printed, shown)
}

} // verus!
