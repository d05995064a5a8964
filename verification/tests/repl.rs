//! The interactive shell.
use opsense::repl::analyses::{
    outcome, plot_cmd, plot_data, plot_image, plot_saved, shell_shows, stats_cmd, stats_code, stored_as, KernelReply,
    Outcome, Shown, StatsArgs,
};
use opsense::repl::commands::{
    catalog_cmd, close_cmd, find_by_prefix, help, kernel_cmd, no_backend, pattern_answer, pattern_cmd, pick_station,
    query_cmd, query_result, route, runner_cmd, session_row, station_answer, station_cmd, use_cmd, CommandKind, KernelPlan,
    PatternPlan, QueryError, RunnerPlan, Stage, StationPlan,
};
use opsense::repl::completer::{candidates, complete};
use opsense::repl::display::{
    cell, dataframe_preview, ok, preview_rows, station_info, station_row, station_table, table, CellValue, Frame, StationInfo,
};
use opsense::repl::flags::{non_empty, parse_duration, DurationError, Flags};
use opsense::repl::observation::{
    column_names, kind_tag, observations_to_rows, severity_tag, signal_tag, LogLevel, Observation, Signal, TelemetryKind,
};
use opsense::repl::vars::{code_names, referenced_input_vars, variables_of, vars_cmd, Variable, Variables};
use opsense::repl::{is_block_toggle, is_exit, Action, InputMode, KernelLang, ReplMode, Shell};
use opsense::num::Num;
use serde_json::Value;

fn object(members: Vec<(&str, Value)>) -> Value {
    Value::from_iter(members)
}

fn strings(v: &[&str]) -> Vec<String> {
    v.iter().map(|s| s.to_string()).collect()
}

// ---- modes ---------------------------------------------------------------

#[test]
fn is_exit_matches_known_aliases() {
    for s in [":quit", ":q", ":exit", "exit()", "exit"] {
        assert!(is_exit(s), "expected {s:?} to be an exit");
    }
}

#[test]
fn is_exit_tolerates_whitespace() {
    assert!(is_exit("  :quit  "));
    assert!(is_exit("\texit()"));
}

#[test]
fn is_exit_rejects_other_commands() {
    for s in [":help", ":station", "exit; ", "noexit", ""] {
        assert!(!is_exit(s), "expected {s:?} to NOT exit");
    }
}

#[test]
fn is_block_toggle_returns_mode() {
    assert_eq!(is_block_toggle(":block"), Some(InputMode::Block));
    assert_eq!(is_block_toggle(":line"), Some(InputMode::Line));
}

#[test]
fn is_block_toggle_ignores_other_lines() {
    assert_eq!(is_block_toggle(""), None);
    assert_eq!(is_block_toggle(":help"), None);
    assert_eq!(is_block_toggle("  :block  "), Some(InputMode::Block));
}

#[test]
fn kernel_lang_prompts_and_names() {
    assert_eq!(KernelLang::Python.prompt(), "python> ");
    assert_eq!(KernelLang::Julia.prompt(), "julia> ");
    assert_eq!(KernelLang::Python.name(), "Python");
    assert_eq!(KernelLang::Julia.name(), "Julia");
}

#[test]
fn repl_mode_equality() {
    assert_eq!(ReplMode::Opsense, ReplMode::Opsense);
    assert_eq!(ReplMode::Kernel(KernelLang::Python), ReplMode::Kernel(KernelLang::Python));
    assert_ne!(ReplMode::Kernel(KernelLang::Python), ReplMode::Kernel(KernelLang::Julia));
    assert_ne!(ReplMode::Opsense, ReplMode::Kernel(KernelLang::Python));
}

#[test]
fn main_shell_runs_commands_and_quits() {
    let mut shell = Shell::new();
    assert_eq!(shell.prompt(), ("opsense", "❯ "));
    assert!(matches!(shell.step("   "), Action::Nothing));
    assert!(matches!(shell.step("  :vars "), Action::Command(s) if s == ":vars"));
    assert!(matches!(shell.step(" :q "), Action::Quit));
    assert_eq!(shell.mode, ReplMode::Opsense);
}

#[test]
fn kernel_shell_never_quits() {
    let mut shell = Shell::new();
    shell.enter(KernelLang::Julia);
    assert_eq!(shell.prompt(), ("Julia", "julia> "));
    assert!(matches!(shell.step(" x = 1"), Action::Run(s) if s == " x = 1"));
    assert!(matches!(shell.step("  "), Action::Nothing));
    assert!(matches!(shell.step("exit()"), Action::BackToMain));
    assert_eq!(shell.mode, ReplMode::Opsense);
    assert_eq!(shell.input_mode, InputMode::Line);
}

#[test]
fn a_block_is_run_as_it_was_typed() {
    let mut shell = Shell::new();
    shell.enter(KernelLang::Python);
    assert!(matches!(shell.step(":block"), Action::ModeSet(InputMode::Block)));
    assert!(matches!(shell.step("for i in range(3):"), Action::Nothing));
    assert!(matches!(shell.step("    print(i)"), Action::Nothing));
    assert_eq!(shell.block_buf.len(), 2);
    assert!(matches!(shell.step(""), Action::Run(s) if s == "for i in range(3):\n    print(i)"));
    assert!(shell.block_buf.is_empty());
    assert!(matches!(shell.step(""), Action::Nothing));
    shell.step("half a block");
    assert!(matches!(shell.step(" :line "), Action::ModeSet(InputMode::Line)));
    assert!(shell.block_buf.is_empty());
}

// ---- durations and flags -------------------------------------------------

#[test]
fn parse_duration_seconds() {
    assert_eq!(parse_duration("30s").unwrap(), 30);
    assert_eq!(parse_duration("45sec").unwrap(), 45);
    assert_eq!(parse_duration("5secs").unwrap(), 5);
}

#[test]
fn parse_duration_minutes() {
    assert_eq!(parse_duration("10m").unwrap(), 600);
    assert_eq!(parse_duration("2min").unwrap(), 120);
}

#[test]
fn parse_duration_hours_days_weeks() {
    assert_eq!(parse_duration("24h").unwrap(), 86_400);
    assert_eq!(parse_duration("7d").unwrap(), 7 * 86_400);
    assert_eq!(parse_duration("4w").unwrap(), 4 * 604_800);
}

#[test]
fn parse_duration_rejects_missing_unit() {
    assert!(parse_duration("100").is_err());
}

#[test]
fn parse_duration_rejects_unknown_unit() {
    assert!(parse_duration("10x").is_err());
}

#[test]
fn parse_duration_rejects_non_numeric() {
    assert!(parse_duration("abch").is_err());
}

#[test]
fn duration_errors_say_what_is_wrong() {
    assert_eq!(parse_duration("100"), Err(DurationError::MissingUnit));
    assert_eq!(parse_duration(""), Err(DurationError::MissingUnit));
    assert_eq!(parse_duration("h"), Err(DurationError::MissingNumber));
    assert_eq!(parse_duration("-5m"), Err(DurationError::MissingNumber));
    assert_eq!(parse_duration("10x"), Err(DurationError::UnknownUnit));
    assert_eq!(parse_duration("9223372036854775808s"), Err(DurationError::TooLarge));
    assert_eq!(parse_duration("9223372036854775807s"), Ok(i64::MAX));
    assert_eq!(parse_duration("9223372036854775807w"), Err(DurationError::TooLarge));
    let message = |spec: &str| parse_duration(spec).unwrap_err().message(spec);
    assert_eq!(message("100"), "duration `100` missing unit (s|m|h|d|w)");
    assert_eq!(message(""), "duration `` missing unit (s|m|h|d|w)");
    assert_eq!(message("h"), "".parse::<i64>().unwrap_err().to_string());
    assert_eq!(message("10x"), "unknown duration unit `x`");
    assert_eq!(message("9223372036854775808s"), "9223372036854775808".parse::<i64>().unwrap_err().to_string());
}

#[test]
fn twice_the_number_is_twice_the_time() {
    assert_eq!(parse_duration("14hours").unwrap(), 2 * parse_duration("7hours").unwrap());
}

#[test]
fn non_empty_returns_trimmed() {
    assert_eq!(non_empty("  hello  ", "missing").unwrap(), "hello");
}

#[test]
fn non_empty_rejects_blank() {
    assert!(non_empty("", "missing").is_err());
    assert!(non_empty("   ", "missing").is_err());
    assert!(non_empty("\t", "missing").is_err());
    assert_eq!(non_empty("\t", "missing").unwrap_err().message, "missing");
}

#[test]
fn flags_parse_bare_args() {
    let f = Flags::parse(&["metric", "--stage", "raw", "--from", "24h"]);
    assert_eq!(f.args, vec!["metric"]);
    assert_eq!(f.get("stage"), Some("raw"));
    assert_eq!(f.get("from"), Some("24h"));
}

#[test]
fn flags_get_omits_empty_values() {
    let f = Flags::parse(&["--only"]);
    assert_eq!(f.get("only"), None);
}

#[test]
fn flags_collects_bare_args() {
    let f = Flags::parse(&["a", "b", "c"]);
    assert_eq!(f.args, vec!["a", "b", "c"]);
    assert!(f.values.is_empty());
}

#[test]
fn the_last_mention_of_a_flag_counts() {
    let f = Flags::parse(&["--q", "0.5", "x", "--q", "0.9"]);
    assert_eq!(f.get("q"), Some("0.9"));
    assert_eq!(f.args, vec!["x"]);
    assert_eq!(f.arg(1), "");
}

// ---- commands ------------------------------------------------------------

#[test]
fn help_default_lists_topics() {
    let out = help("");
    assert!(out.contains("commands:"));
    assert!(out.contains(":help"));
    assert!(out.contains(":quit"));
}

#[test]
fn help_specific_topic_query() {
    let out = help("query");
    assert!(out.contains(":query"));
    assert!(out.contains("--stage"));
    assert!(out.contains("--from"));
}

#[test]
fn help_specific_topic_py() {
    let out = help("py");
    assert!(out.contains(":py"));
    assert!(out.contains("DataFrame"));
}

#[test]
fn help_specific_topic_stats() {
    let out = help("stats");
    assert!(out.contains("describe"));
    assert!(out.contains("rolling"));
    assert!(out.contains("quantile"));
    assert!(out.contains("forecast"));
}

#[test]
fn help_specific_topic_plot() {
    let out = help("plot");
    assert!(out.contains(":plot"));
    assert!(out.contains("--type"));
}

#[test]
fn help_trims_input() {
    assert!(help("  query  ").contains(":query"));
}

#[test]
fn lines_are_routed_by_their_first_word() {
    for (line, kind, rest) in [
        (":h stats", CommandKind::Help, "stats"),
        (":python  print(1) ", CommandKind::Python, "print(1)"),
        (":ls", CommandKind::Vars, ""),
        (":jl", CommandKind::Julia, ""),
        (":catalog a b c", CommandKind::Catalog, "a b c"),
    ] {
        let (k, r) = route(line).unwrap();
        assert_eq!(k, kind);
        assert_eq!(r, rest);
    }
    assert_eq!(route(":nope x").unwrap_err().message, "unknown command `:nope` — try :help");
    assert!(route("1 + 1").unwrap_err().message.starts_with("interactive Rhai expressions"));
}

#[test]
fn station_commands() {
    assert!(matches!(station_cmd(""), Ok(StationPlan::List)));
    assert!(matches!(station_cmd("list"), Ok(StationPlan::List)));
    assert!(matches!(station_cmd("describe  a "), Ok(StationPlan::Describe { id }) if id == "a"));
    assert_eq!(
        station_cmd("describe ").unwrap_err().message,
        "station id required: :station describe <id>"
    );
    assert!(station_cmd("use a").unwrap_err().message.contains("lives on the session"));
    assert_eq!(
        station_cmd("drop a").unwrap_err().message,
        "unknown :station subcommand `drop` (list | describe)"
    );
}

#[test]
fn queries_are_read_with_their_defaults() {
    let p = query_cmd("cpu", 1_000_000).unwrap();
    assert_eq!(p.metric, "cpu");
    assert_eq!(p.stage, Stage::Processed);
    assert_eq!((p.from, p.to), (1_000_000 - 86_400, 1_000_000));
    assert_eq!(p.station, None);
    let p = query_cmd("cpu --stage raw --from 2h --to 10m --station web", 1_000_000).unwrap();
    assert_eq!(p.stage, Stage::Raw);
    assert_eq!((p.from, p.to), (1_000_000 - 7_200, 1_000_000 - 600));
    assert_eq!(p.station.as_deref(), Some("web"));
    assert_eq!(query_result(&p, 3, "@1"), "3 rows [cpu Raw 992800..999400] -> @1");
    assert!(matches!(query_cmd("--from 1h", 0), Err(QueryError::Usage(e)) if e.message.starts_with("usage: :query")));
    assert!(matches!(query_cmd("cpu --from soon", 0), Err(QueryError::From { error: DurationError::MissingNumber, .. })));
    assert!(matches!(
        query_cmd("cpu --from 3fortnights", 0),
        Err(QueryError::From { error: DurationError::UnknownUnit, message }) if message == "unknown duration unit `fortnights`"
    ));
    assert_eq!(query_cmd("cpu --to soon", 50).unwrap().to, 50);
    assert_eq!(query_cmd("cpu --from 1h", -50).unwrap().from, -3650);
}

#[test]
fn the_most_specific_station_is_picked() {
    let ids = strings(&["a", "cpu", "b"]);
    assert_eq!(pick_station(&ids, &Some("b".to_string()), "cpu").unwrap(), 2);
    assert_eq!(pick_station(&ids, &None, "cpu").unwrap(), 1);
    assert_eq!(pick_station(&ids, &None, "mem").unwrap(), 0);
    assert_eq!(
        pick_station(&ids, &Some("x".to_string()), "cpu").unwrap_err().message,
        "no station registered with id `x` — see :station list"
    );
    assert!(pick_station(&vec![], &None, "cpu").unwrap_err().message.starts_with("no station registered — start"));
}

#[test]
fn runner_and_kernel_commands() {
    assert!(matches!(runner_cmd("list"), Ok(RunnerPlan::List)));
    assert!(
        matches!(runner_cmd("connect 10.0.0.1:9000"), Ok(RunnerPlan::Connect { addr, name }) if addr == "10.0.0.1:9000" && name == "10.0.0.1")
    );
    assert!(
        matches!(runner_cmd("connect h:1 gpu"), Ok(RunnerPlan::Connect { addr, name }) if addr == "h:1" && name == "gpu")
    );
    assert_eq!(runner_cmd("connect").unwrap_err().message, "usage: :runner connect <host:port> [name]");
    assert_eq!(
        runner_cmd("stop").unwrap_err().message,
        "unknown :runner subcommand `stop` (list | connect <addr> [name])"
    );
    assert!(matches!(kernel_cmd(" local "), Ok(KernelPlan::Local)));
    assert!(matches!(kernel_cmd("gpu"), Ok(KernelPlan::Named { name }) if name == "gpu"));
    assert_eq!(kernel_cmd(" ").unwrap_err().message, "usage: :kernel local | :kernel <runner-name>");
    assert_eq!(no_backend("x").message, "no backend named `x` — see :runner list");
}

#[test]
fn pattern_and_catalog_commands() {
    assert!(
        matches!(pattern_cmd("add web  GET /x  "), Ok(PatternPlan::Add { node, pattern }) if node == "web" && pattern == "GET /x")
    );
    assert!(matches!(pattern_cmd("get web hi"), Ok(PatternPlan::Get { node, text }) if node == "web" && text == "hi"));
    assert_eq!(pattern_cmd("add web").unwrap_err().message, "usage: :pattern add <node> <pattern>");
    assert_eq!(pattern_cmd("get").unwrap_err().message, "usage: :pattern get <node> <text>");
    assert_eq!(pattern_cmd("del x y").unwrap_err().message, "unknown :pattern subcommand `del` (add | get)");
    assert_eq!(pattern_answer(true, "a"), "KNOWN → a");
    assert_eq!(pattern_answer(false, "a"), "NEW → a");
    assert_eq!(catalog_cmd("web error 500").unwrap(), ("web".to_string(), "error 500".to_string()));
    assert_eq!(catalog_cmd("web").unwrap(), ("web".to_string(), String::new()));
    assert_eq!(catalog_cmd("").unwrap_err().message, "usage: :catalog <node> <query>");
}

#[test]
fn a_prefix_must_name_one_session() {
    let ids = strings(&["abc", "abd", "xyz"]);
    assert_eq!(find_by_prefix(&ids, "x").unwrap(), 2);
    assert_eq!(find_by_prefix(&ids, "q").unwrap_err().message, "no session matching `q`");
    assert_eq!(find_by_prefix(&ids, "ab").unwrap_err().message, "ambiguous prefix `ab` (2 matches)");
    assert_eq!(use_cmd(&ids, " abd ").unwrap(), 1);
    assert_eq!(use_cmd(&ids, "").unwrap_err().message, "usage: :use <session-id-prefix>");
    assert_eq!(close_cmd(&ids, "abc", "x").unwrap(), 2);
    assert!(close_cmd(&ids, "xyz", "x").unwrap_err().message.starts_with("refusing to close"));
    assert_eq!(close_cmd(&ids, "xyz", " ").unwrap_err().message, "usage: :close <session-id-prefix>");
    assert_eq!(session_row("abc", "abc", "Ready", "now"), strings(&["abc*", "Ready", "now"]));
    assert_eq!(session_row("abd", "abc", "Ready", "now"), strings(&["abd", "Ready", "now"]));
}

// ---- observations --------------------------------------------------------

#[test]
fn kind_tag_known_kinds() {
    assert_eq!(kind_tag(&TelemetryKind::Metric), "metric");
    assert_eq!(kind_tag(&TelemetryKind::Log), "log");
    assert_eq!(kind_tag(&TelemetryKind::Trace), "trace");
}

#[test]
fn signal_tag_known_signals() {
    assert_eq!(signal_tag(&Signal::Utilization), "utilization");
    assert_eq!(signal_tag(&Signal::Saturation), "saturation");
    assert_eq!(signal_tag(&Signal::Errors), "errors");
}

#[test]
fn severity_tag_maps_levels() {
    assert_eq!(severity_tag(Some(&LogLevel::Info)), Some("info"));
    assert_eq!(severity_tag(Some(&LogLevel::Error)), Some("error"));
    assert_eq!(severity_tag(Some(&LogLevel::Warn)), Some("warn"));
    assert_eq!(severity_tag(None), None);
}

#[test]
fn observations_become_rows() {
    let rows = observations_to_rows(&vec![
        Observation {
            ts: 5,
            metric_id: "up".to_string(),
            kind: TelemetryKind::Metric,
            signal: Signal::Raw,
            value: Num::from_bits(1.0f64.to_bits()),
            labels: vec![],
            severity: None,
        },
        Observation {
            ts: 6,
            metric_id: "log".to_string(),
            kind: TelemetryKind::Log,
            signal: Signal::Errors,
            value: Num::from_bits(2.5f64.to_bits()),
            labels: vec![("host".to_string(), "a\"b".to_string())],
            severity: Some(LogLevel::Debug),
        },
    ]);
    assert_eq!(rows.len(), 2);
    assert_eq!((rows[0].ts, rows[0].kind, rows[0].signal), (5, "metric", "raw"));
    assert_eq!(rows[0].labels, None);
    assert_eq!(rows[1].labels.as_deref(), Some("{\"host\":\"a\\\"b\"}"));
    assert_eq!(rows[1].severity, Some("debug"));
    assert_eq!(column_names(), vec!["ts", "metric_id", "kind", "signal", "value", "labels", "severity"]);
}

// ---- variables -----------------------------------------------------------

#[test]
fn referenced_vars_maps_df_prefix() {
    assert_eq!(referenced_input_vars("nrow(_df_1)"), vec!["@1"]);
    assert_eq!(referenced_input_vars("describe(_df_12)"), vec!["@12".to_string()]);
}

#[test]
fn referenced_vars_accepts_literal_at() {
    assert_eq!(referenced_input_vars("mean(@3)"), vec!["@3"]);
}

#[test]
fn referenced_vars_dedups_and_keeps_order() {
    let code = "_df_2 + _df_1 + _df_2 + @1";
    assert_eq!(referenced_input_vars(code), vec!["@2", "@1"]);
}

#[test]
fn referenced_vars_ignores_non_variables() {
    assert!(referenced_input_vars("using DataFrames, Statistics").is_empty());
    assert!(referenced_input_vars("exit()").is_empty());
    assert!(referenced_input_vars("1 + 1").is_empty());
    // `_df` without digits, `_df_abc` non-numeric, bare `_df1` — none map.
    assert!(referenced_input_vars("_df + _df_abc + _df1").is_empty());
}

#[test]
fn referenced_vars_handles_underscores_in_names() {
    // `my_df_1` is a plain identifier, not a session-variable reference.
    assert!(referenced_input_vars("my_df_1").is_empty());
}

#[test]
fn names_are_cut_at_what_is_no_letter() {
    assert_eq!(code_names("é1+b c"), strings(&["é1", "b", "c"]));
    assert_eq!(variables_of(&strings(&["_df_7", "x", "@7", "@"])), strings(&["@7", "@"]));
}

#[test]
fn collect_inputs_pushes_df_referenced_datasets() {
    let mut session = Variables::new();
    session.set("@1", Variable::Frame { handle: 11, rows: 1, cols: 7 });
    session.set("@2", Variable::Scalar { handle: 12 });

    let inputs = session.collect_inputs(&referenced_input_vars("describe(_df_1)"));
    assert_eq!(inputs.len(), 1, "`_df_1` must resolve to session var `@1`");
    assert_eq!(inputs[0], ("@1".to_string(), 11));

    // Code that references nothing pushes nothing.
    assert!(session.collect_inputs(&referenced_input_vars("using DataFrames")).is_empty());
    // A referenced var that does not exist is silently skipped.
    assert!(session.collect_inputs(&referenced_input_vars("nrow(_df_9)")).is_empty());
    // Nor is one that holds no frame.
    assert!(session.collect_inputs(&referenced_input_vars("@2")).is_empty());
}

#[test]
fn carry_over_moves_variables_to_new_session() {
    let mut old = Variables::new();
    let mut new = Variables::new();
    old.set("@1", Variable::Scalar { handle: 42 });
    new.set("@9", Variable::Bytes { handle: 1, bytes: 3 });
    assert!(new.get("@1").is_none());

    old.carry_over(&mut new);
    assert!(new.get("@1").is_some());
    assert!(new.get("@9").is_some());
    // Old session keeps its variable (non-destructive copy).
    assert!(old.get("@1").is_some());
}

#[test]
fn variables_are_listed_in_order() {
    let mut v = Variables::new();
    v.set("@2", Variable::Frame { handle: 1, rows: 3, cols: 2 });
    v.set("@10", Variable::Plot { handle: 2, bytes: 9 });
    v.set("@2", Variable::Model { handle: 3, bytes: 4 });
    assert_eq!(v.names(), strings(&["@10", "@2"]));
    assert_eq!(v.get("@2"), Some(Variable::Model { handle: 3, bytes: 4 }));
    assert_eq!(Variable::Frame { handle: 1, rows: 3, cols: 2 }.shape(""), "3x2");
    assert_eq!(Variable::Plot { handle: 1, bytes: 9 }.shape("png"), "9 bytes png");
    assert_eq!(Variable::Bytes { handle: 1, bytes: 9 }.shape("png"), "9 bytes");
    assert_eq!(Variable::Scalar { handle: 1 }.shape("42"), "42");
    assert_eq!(Variable::Frame { handle: 1, rows: 3, cols: 2 }.kind(), "DataFrame");
}

#[test]
fn vars_are_shown_as_a_table() {
    let mut v = Variables::new();
    let about = |h: u64| (format!("note{h}"), format!("10:00:0{h}"));
    assert_eq!(vars_cmd(&v, about), "(no variables)");
    v.set("@2", Variable::Frame { handle: 1, rows: 3, cols: 2 });
    v.set("@1", Variable::Plot { handle: 2, bytes: 9 });
    v.set("x", Variable::Scalar { handle: 3 });
    let rows = vec![
        strings(&["@1", "Plot", "9 bytes note2", "10:00:02"]),
        strings(&["@2", "DataFrame", "3x2", "10:00:01"]),
        strings(&["x", "Scalar", "note3", "10:00:03"]),
    ];
    assert_eq!(vars_cmd(&v, about), table(&["var", "type", "shape/value", "created"], rows));
}

// ---- display -------------------------------------------------------------

fn make_frame() -> Frame {
    Frame {
        headers: strings(&["id", "name"]),
        columns: vec![
            vec![CellValue::Int(1), CellValue::Int(2), CellValue::Int(3)],
            vec![
                CellValue::Text("alice".to_string()),
                CellValue::Text("bob".to_string()),
                CellValue::Text("carol".to_string()),
            ],
        ],
        num_rows: 3,
    }
}

#[test]
fn table_renders_headers_and_rows() {
    let headers = &["col_a", "col_b"];
    let rows = vec![vec!["1".into(), "hello".into()], vec!["2".into(), "world".into()]];
    let out = table(headers, rows);
    assert!(out.contains("col_a"));
    assert!(out.contains("col_b"));
    assert!(out.contains("1"));
    assert!(out.contains("hello"));
}

#[test]
fn table_handles_empty_rows() {
    let headers = &["x"];
    let rows: Vec<Vec<String>> = vec![];
    let out = table(headers, rows);
    assert!(out.contains("x"));
}

#[test]
fn cell_int64() {
    let batch = make_frame();
    assert_eq!(cell(&batch, 0, 0), "1");
    assert_eq!(cell(&batch, 0, 1), "2");
    assert_eq!(cell(&batch, 0, 2), "3");
}

#[test]
fn cell_string() {
    let batch = make_frame();
    assert_eq!(cell(&batch, 1, 0), "alice");
    assert_eq!(cell(&batch, 1, 1), "bob");
    assert_eq!(cell(&batch, 1, 2), "carol");
}

#[test]
fn cell_null_returns_nul() {
    let batch = Frame { headers: strings(&["n"]), columns: vec![vec![CellValue::Null]], num_rows: 1 };
    assert_eq!(cell(&batch, 0, 0), "∅");
}

#[test]
fn cells_of_every_type() {
    let batch = Frame {
        headers: strings(&["x"]),
        columns: vec![vec![
            CellValue::Int(-4),
            CellValue::Float("1.500000".to_string()),
            CellValue::Bool(true),
            CellValue::Bool(false),
            CellValue::Opaque,
        ]],
        num_rows: 5,
    };
    let shown: Vec<String> = (0..5).map(|r| cell(&batch, 0, r)).collect();
    assert_eq!(shown, strings(&["-4", "1.500000", "true", "false", "<opaque>"]));
}

#[test]
fn dataframe_preview_renders_table() {
    let batch = make_frame();
    let out = dataframe_preview(&batch, 10);
    assert!(out.contains("id"));
    assert!(out.contains("name"));
    assert!(out.contains("alice"));
}

#[test]
fn dataframe_preview_respects_max_rows() {
    let batch = make_frame(); // 3 rows
    let out = dataframe_preview(&batch, 2);
    assert!(out.contains("alice"));
    assert!(out.contains("bob"));
    // should not contain carol
    assert!(!out.contains("carol"));
    // should show truncation notice
    assert!(out.contains("more rows"));
    assert!(out.ends_with("\n… 1 more rows"));
    assert_eq!(preview_rows(&batch, 1), vec![strings(&["1", "alice"])]);
}

#[test]
fn dataframe_preview_all_rows_no_truncation() {
    let batch = make_frame(); // 3 rows
    let out = dataframe_preview(&batch, 100);
    assert!(out.contains("carol"));
    // no truncation message when all rows shown
    assert!(!out.contains("more rows"));
}

#[test]
fn ok_passes_through_message() {
    assert_eq!(ok("done"), "done");
    assert_eq!(ok("ok"), "ok");
    assert_eq!(ok(&String::from("hello")), "hello");
}

#[test]
fn stations_are_listed_with_what_is_known() {
    let info = StationInfo { backend: None, latest_raw: "1".to_string(), latest_processed: "null".to_string() };
    assert_eq!(station_row("a", &Some(info)), strings(&["a", "?", "1", "null"]));
    assert_eq!(station_row("b", &None), strings(&["b", "?", "?", "?"]));
    let described = object(vec![("backend", Value::from("lmdb")), ("latest_raw", Value::from("x"))]);
    let info = station_info(&described);
    assert_eq!(station_row("c", &Some(info)), strings(&["c", "lmdb", "\"x\"", "null"]));
    assert_eq!(station_info(&Value::from(7)).backend, None);
    let pretty = "{\n  \"backend\": \"lmdb\",\n  \"latest_raw\": \"x\"\n}";
    assert_eq!(station_answer("c", &Some(described)).unwrap(), pretty);
    assert_eq!(station_answer("d", &None).unwrap_err().message, "no station registered with id `d`");
    let out = station_table(vec![station_row("b", &None)]);
    assert!(out.contains("latest_processed") && out.contains("b"));
}

// ---- completion ----------------------------------------------------------

#[test]
fn completion_offers_what_starts_with_the_word() {
    let all = candidates(&strings(&["web", "db"]), &strings(&["@1", ":quit"]));
    assert_eq!(all.iter().filter(|c| *c == ":quit").count(), 1);
    assert!(all.windows(2).all(|w| w[0] < w[1]));
    let (word, found) = complete("x :q", &all);
    assert_eq!(word, ":q");
    assert_eq!(found, strings(&[":query", ":query db", ":query web", ":quit"]));
    assert_eq!(complete("", &all).1.len(), all.len());
    assert_eq!(complete("mean(@1 @", &all).1, strings(&["@1"]));
}

// ---- statistics, plots and replies ---------------------------------------

#[test]
fn statistics_become_code() {
    assert_eq!(stats_cmd("describe @1").unwrap(), "result = opsense_stats.describe(@1)");
    assert_eq!(
        stats_cmd("rolling @1 --window 5m --fn mean,std").unwrap(),
        "result = opsense_stats.rolling(@1, \"5m\", [\"mean\",\"std\"])"
    );
    assert_eq!(stats_cmd("quantile @2").unwrap(), "result = opsense_stats.quantile(@2[\"value\"], 0.95)");
    assert_eq!(stats_cmd("acf @2 --lags 7 --col x").unwrap(), "result = opsense_stats.acf(@2[\"x\"], nlags=7)");
    assert_eq!(stats_cmd("adftest @2").unwrap(), "result = opsense_stats.adf_test(@2[\"value\"])");
    assert_eq!(
        stats_cmd("forecast @2").unwrap(),
        "result = opsense_stats.arima_forecast(@2[\"value\"], (1,1,1), 24).to_frame('forecast')"
    );
    assert_eq!(stats_cmd("mode @2").unwrap_err().message, "unknown :stats subcommand `mode` — see :help stats");
    let args = StatsArgs {
        sub: "rolling".to_string(),
        var: "@1".to_string(),
        col: String::new(),
        window: "W".to_string(),
        fns: strings(&["A", "B"]),
        q: String::new(),
        lags: String::new(),
        order: String::new(),
        steps: String::new(),
    };
    assert_eq!(stats_code(&args).unwrap(), "result = opsense_stats.rolling(@1, W, [A,B])");
}

#[test]
fn plots_become_code_and_a_file() {
    let p = plot_cmd("@1").unwrap();
    assert_eq!(p.code, "result = opsense_plots.plot_hist(@1)");
    assert_eq!(p.out_path, "opsense_plot_hist.png");
    let p = plot_cmd("@1 --type corr --out c.png").unwrap();
    assert_eq!(p.code, "result = opsense_plots.plot_corr(@1)");
    assert_eq!(p.out_path, "c.png");
    assert!(plot_cmd("").unwrap_err().message.starts_with("usage: :plot"));
    assert_eq!(
        plot_cmd("@1 --type pie").unwrap_err().message,
        "unknown plot type `pie` (hist|line|dist|scatter|corr)"
    );
    assert_eq!(plot_saved(5, "c.png"), "saved 5 bytes -> c.png");
}

#[test]
fn a_plot_is_read_from_its_address() {
    assert_eq!(plot_data(" data:image/png;base64, aGk= \n"), "aGk=");
    assert_eq!(plot_data("aGk="), "aGk=");
    assert_eq!(plot_image("data:image/png;base64,aGVsbG8=").unwrap(), b"hello".to_vec());
    assert!(plot_image("data:image/png;base64,a?").is_err());
}

fn reply() -> KernelReply {
    KernelReply { stdout: String::new(), text: None, frame: None, error: None }
}

#[test]
fn replies_are_told_apart() {
    assert!(matches!(outcome(&KernelReply { error: Some("boom".to_string()), frame: Some((1, 1)), ..reply() }, 3), Outcome::Failed(s) if s == "boom"));
    assert!(matches!(outcome(&KernelReply { frame: Some((2, 3)), stdout: "x".to_string(), ..reply() }, 3), Outcome::Frame { summary } if summary == "2 rows x 3 cols (3 ms)"));
    assert!(matches!(outcome(&KernelReply { stdout: "x".to_string(), text: Some("y".to_string()), ..reply() }, 3), Outcome::Text(s) if s == "x"));
    assert!(matches!(outcome(&KernelReply { text: Some("y".to_string()), ..reply() }, 3), Outcome::Text(s) if s == "y"));
    assert!(matches!(outcome(&reply(), 3), Outcome::Text(s) if s == "ok (3 ms)"));
    assert_eq!(stored_as("2 rows", "@4"), "2 rows -> @4");
}

#[test]
fn the_shell_shows_what_was_printed_first() {
    let (out, shown) = shell_shows(&KernelReply { stdout: "p".to_string(), frame: Some((2, 3)), ..reply() });
    assert_eq!(out.as_deref(), Some("p"));
    assert!(matches!(shown, Shown::Out(s) if s == "2 rows × 3 cols"));
    let (out, shown) = shell_shows(&KernelReply { error: Some("e".to_string()), ..reply() });
    assert_eq!(out, None);
    assert!(matches!(shown, Shown::Error(s) if s == "e"));
    assert!(matches!(shell_shows(&reply()).1, Shown::Nothing));
}
