//! Providers, Redis, jobs, Telegram and paper trading.
use opsense::candle::{CandleStick, Tick};
use opsense::jobs::{
    acquire_user_slot, close_reason, default_guard_ttl, default_lookback, default_market, default_resolution_rebuild,
    default_resolution_test, events_of, job_cancel_key, job_events_key, job_status_key, on_end, on_no_worker, on_slot, read_cancel,
    read_events, read_status, read_user_slot, release_user_slot, request_cancel, result_key, status_of,
    user_guard_key, write_status,
    BacktestExecutor, JobEvent, JobEventKind, JobState, Market, RunEnd, SlotReply, JOB_STREAM_KEY,
};
use opsense::loader::{default_true, provider_span, FromCsv};
use opsense::num::Num;
use opsense::ohcl::{ttl, Need, QueryCandleSticks};
use opsense::order::{GridSnapshot, Order, OrderEvent, OrderType};
use opsense::providers::{candle_url, find_profile, mapping_of, resolve_provider, Columns, QueryError, Scalar};
use opsense::redis::sink::{RedisSink, RedisSinkMode};
use opsense::redis::source::{
    acknowledge, create_group, default_auto_ack, default_block_ms, entry_content, entry_payload, message_of, pop_tail,
    read_new, read_pending, Entry, EntryError, RedisSource, RedisSourceMode,
};
use opsense::redis::template::{parse_template, render_fields, render_template, Segment};
use opsense::redis::RedisCommand;
use opsense::runner::{JobAction, JobInput, JobPhase, JobRun};
use opsense::sandbox::{
    default_analysis_resolution, default_trading_resolution, missing_setting, only_candle, Sandbox, Sandboxes, Setting,
};
use opsense::telegram::{default_timeout, TelegramError, TelegramMessage, TelegramSink};
use serde_json::Value;

const WEEK: i64 = 604_800;

fn n(x: f64) -> Num {
    Num::from_bits(x.to_bits())
}

fn candle(t: i64, p: f64) -> CandleStick {
    CandleStick::new(t, n(p), n(p + 1.0), n(p - 1.0), n(p + 0.5), n(1000.0))
}

fn object(members: Vec<(&str, Value)>) -> Value {
    Value::from_iter(members)
}

fn words(c: &RedisCommand) -> Vec<&str> {
    c.parts.iter().map(|s| s.as_str()).collect()
}

// ---- providers and their cache -------------------------------------------

#[test]
fn test_profile_initialization() {
    assert!(find_profile("ssi").is_some());
    assert!(find_profile("binance").is_some());
    assert!(find_profile("nowhere").is_none());
    assert_eq!(find_profile("simplefx").unwrap().paths[5], "data[].size");
}

#[test]
fn columns_of_one_length_become_candles() {
    assert_eq!(find_profile("ssi").unwrap().paths[0], "data.t[]");
    let columns = Columns {
        t: (0..10).map(|i| Scalar::Integer(1_700_000_000 + i)).collect(),
        o: (0..10).map(|i| n(100.0 + i as f64)).collect(),
        h: (0..10).map(|i| n(100.0 + i as f64)).collect(),
        l: (0..10).map(|i| n(100.0 + i as f64)).collect(),
        c: (0..10).map(|i| n(100.0 + i as f64)).collect(),
        v: (0..10).map(|i| n(100.0 + i as f64)).collect(),
    };
    assert_eq!(columns.t.len(), 10);
    assert_eq!(columns.t[0].as_i64_lossy(), 1_700_000_000);
    let candles = columns.candles("ssi", 0);
    assert_eq!(candles.len(), 10);
    assert_eq!(candles[9].t, 1_700_000_009);
    assert_eq!(columns.candles("ssi", 4).len(), 4);
}

#[test]
fn the_shortest_column_decides() {
    let columns = Columns {
        t: vec![Scalar::Integer(170_000_000), Scalar::Integer(170_000_000)],
        o: vec![n(100.5), n(100.8)],
        h: vec![n(101.0), n(102.0)],
        l: vec![n(99.0), n(100.5)],
        c: vec![n(100.8), n(101.5)],
        v: vec![n(5000.0)],
    };
    assert_eq!(columns.t.len(), 2);
    assert_eq!(columns.o[0], n(100.5));
    assert_eq!(columns.t[0].as_i64_lossy(), 170_000_000);
    // Milliseconds become seconds, and the shortest column decides.
    let candles = columns.candles("binance", 0);
    assert_eq!(candles.len(), 1);
    assert_eq!(candles[0].t, 170_000);
}

#[test]
fn times_are_read_as_well_as_they_can_be() {
    assert_eq!(Scalar::Text("-12".to_string()).as_i64_lossy(), -12);
    assert_eq!(Scalar::Text("+7".to_string()).as_i64_lossy(), 7);
    assert_eq!(Scalar::Text("7.5".to_string()).as_i64_lossy(), 0);
    assert_eq!(Scalar::Text("99999999999999999999".to_string()).as_i64_lossy(), 0);
    assert_eq!(Scalar::Text("-9223372036854775808".to_string()).as_i64_lossy(), i64::MIN);
    assert_eq!(Scalar::Other.as_i64_lossy(), 0);
    assert_eq!(Scalar::of(&Value::from(-5)).as_i64_lossy(), -5);
    assert!(matches!(Scalar::of(&Value::from("12")), Scalar::Text(s) if s == "12"));
    assert!(matches!(Scalar::of(&Value::from(1.5)), Scalar::Other));
    assert!(matches!(Scalar::of(&Value::Null), Scalar::Other));
    let columns = Columns {
        t: vec![Scalar::Integer(-1999), Scalar::Text("5000".to_string())],
        o: vec![n(1.0); 2],
        h: vec![n(1.0); 2],
        l: vec![n(1.0); 2],
        c: vec![n(1.0); 2],
        v: vec![n(1.0); 2],
    };
    let candles = columns.candles("binance", 10);
    assert_eq!((candles[0].t, candles[1].t), (-1, 0));
}

#[test]
fn addresses_are_filled_in() {
    assert_eq!(
        candle_url("dnse", "VN30", "dnse", "1D", 10, 20, 0).unwrap(),
        "https://api.dnse.com.vn/chart-api/v2/ohlcs/index?from=10&to=20&symbol=VN30&resolution=1D"
    );
    assert_eq!(
        candle_url("binance", "BTCUSDT", "binance", "1h", 10, 20, 5).unwrap(),
        "https://api.binance.com/api/v3/klines?startTime=10000&endTime=20000&symbol=BTCUSDT&interval=1h&limit=5"
    );
    assert_eq!(
        candle_url("findaily", "HPG", "ssi", "1D", 1, 2, 3).unwrap(),
        "https://findaily.vn/api/investing/v1/ohcl/candles/ssi/HPG?resolution=1D&from=1&to=2&limit=3"
    );
    assert_eq!(candle_url("none", "HPG", "ssi", "1D", 1, 2, 3), Err(QueryError::UnknownProvider));
    assert_eq!(candle_url("ssi", "HPG", "ssi", "1D", 1, 2, 1001), Err(QueryError::LimitTooLarge));
    assert_eq!(QueryError::LimitTooLarge.message(), "`limit` mustn't be larger than 1000");
    assert_eq!(QueryError::NoProvider.message(), "Provider not specified");
    assert_eq!(QueryError::UnknownProvider.message(), "Provider not found");
}

#[test]
fn the_provider_given_goes_before_the_mapping() {
    let mapping = vec![("a".to_string(), "b".to_string()), ("a".to_string(), "c".to_string())];
    assert_eq!(resolve_provider(Some("x"), &mapping, "a"), "x");
    assert_eq!(resolve_provider(None, &mapping, "a"), "b");
    assert_eq!(resolve_provider(None, &mapping, "z"), "z");
}

#[test]
fn test_cache_block_logic() {
    let mut service = QueryCandleSticks::new(vec![], 10);
    let (stock, res) = ("FPT", "1D");

    // Two candles in two blocks.
    let t1 = 1_700_000_000;
    let t2 = 1_700_000_000 + WEEK + 100;
    let candles = vec![candle(t1, 10.0), candle(t2, 20.0)];

    let query_from = t1 - 1000;
    let query_to = t2 + 1000;
    service.update_cache(stock, res, &candles, query_from, query_to, 1);

    let hit = service.fetch_from_cache(stock, res, t1, t1 + 100);
    assert!(hit.is_some());
    assert_eq!(hit.unwrap().len(), 1);

    let hit_all = service.fetch_from_cache(stock, res, t1, t2);
    assert!(hit_all.is_some());
    assert_eq!(hit_all.unwrap().len(), 2);

    let miss_outside = service.fetch_from_cache(stock, res, query_from - 5000, query_from - 1);
    assert!(miss_outside.is_none());

    // Asked for and without a candle: a hit all the same.
    let hit_empty = service.fetch_from_cache(stock, res, t1 + 10, t1 + 20);
    assert!(hit_empty.is_some());
    assert_eq!(hit_empty.unwrap().len(), 0);

    // Of another symbol nothing is known.
    assert!(service.fetch_from_cache("HPG", res, t1, t1 + 100).is_none());
}

#[test]
fn test_cache_invalidation_ttl() {
    let mut service = QueryCandleSticks::new(vec![], 10);
    let (stock, res) = ("VIC", "1");
    let t_base = 1_700_000_000;
    assert!(service.is_invalidated(stock, res, 500));

    service.update_cache(stock, res, &vec![candle(t_base, 10.0)], t_base - 60, t_base + 60, 500);
    assert!(!service.is_invalidated(stock, res, 500));
    assert!(!service.is_invalidated(stock, res, 560));
    assert!(service.is_invalidated(stock, res, 561));
    assert!(!service.is_invalidated(stock, res, 10));

    let hit = service.fetch_from_cache(stock, res, t_base, t_base);
    assert!(hit.is_some());
    assert_eq!((ttl("5"), ttl("1d"), ttl("1M"), ttl("15"), ttl("1H")), (60, 3600, 3600, 300, 300));
}

#[test]
fn candles_are_asked_for_once() {
    let mut service = QueryCandleSticks::new(vec![("findaily".to_string(), "ssi".to_string())], 10);
    assert!(matches!(service.get_candlesticks("", "A", "1D", 1, 2, 0, None, 9), Err(QueryError::NoProvider)));
    assert!(matches!(service.get_candlesticks("x", "A", "1D", 1, 2, 0, None, 9), Err(QueryError::UnknownProvider)));
    let need = service.get_candlesticks("findaily", "A", "1D", 1000, 2000, 0, None, 9).unwrap();
    assert!(matches!(need, Need::Fetch { url } if url.contains("/candles/ssi/A?")));
    service.update_cache("A", "1D", &vec![candle(1500, 3.0), candle(1500, 4.0), candle(1200, 5.0)], 1000, 2000, 9);
    let need = service.get_candlesticks("findaily", "A", "1D", 1000, 2000, 0, None, 10).unwrap();
    // In the order of time, the first of two for one time.
    assert!(matches!(need, Need::Cached(v) if v == vec![candle(1200, 5.0), candle(1500, 3.0)]));
    // Too old, it is asked for again.
    let need = service.get_candlesticks("findaily", "A", "1D", 1000, 2000, 0, Some("vix"), 4000).unwrap();
    assert!(matches!(need, Need::Fetch { url } if url.contains("/candles/vix/A?")));
    service.reload(vec![]);
    assert!(service.mapping.is_empty());
}

#[test]
fn a_mapping_is_read_from_json() {
    let mut pairs = mapping_of(Some("{\"a\":\"ssi\",\"b\":\"vix\",\"a\":\"dnse\"}"));
    pairs.sort();
    assert_eq!(pairs, [("a".to_string(), "dnse".to_string()), ("b".to_string(), "vix".to_string())]);
    assert_eq!(resolve_provider(None, &pairs, "a"), "dnse");
    assert_eq!(resolve_provider(None, &pairs, "c"), "c");
    assert!(mapping_of(None).is_empty());
    assert!(mapping_of(Some("{\"a\":1}")).is_empty());
    assert!(mapping_of(Some("no json")).is_empty());
}

#[test]
fn a_full_cache_forgets_the_oldest_weeks() {
    let mut service = QueryCandleSticks::new(vec![], 2);
    let week = |k: i64| vec![candle(k * WEEK + 10, k as f64)];
    for k in [1, 2] {
        service.update_cache("A", "1D", &week(k), k * WEEK, k * WEEK + 100, 1);
    }
    // Week one is read, so week two is the one used longest ago.
    assert!(service.fetch_from_cache("A", "1D", WEEK, WEEK + 100).is_some());
    service.update_cache("A", "1D", &week(3), 3 * WEEK, 3 * WEEK + 100, 1);
    assert!(service.fetch_from_cache("A", "1D", 2 * WEEK, 2 * WEEK + 100).is_none());
    assert_eq!(service.fetch_from_cache("A", "1D", WEEK, WEEK + 100).unwrap(), week(1));
    assert_eq!(service.fetch_from_cache("A", "1D", 3 * WEEK, 3 * WEEK + 100).unwrap(), week(3));
    // Without any room nothing is kept.
    let mut service = QueryCandleSticks::new(vec![], 0);
    service.update_cache("A", "1D", &week(1), WEEK, WEEK + 100, 1);
    assert!(service.fetch_from_cache("A", "1D", WEEK, WEEK + 100).is_none());
    assert!(!service.is_invalidated("A", "1D", 1));
}

#[test]
fn times_before_the_epoch_are_cached_too() {
    let mut service = QueryCandleSticks::new(vec![], 10);
    let candles = vec![candle(-WEEK, 1.0), candle(-5, 2.0), candle(7, 3.0)];
    service.update_cache("A", "1D", &candles, -WEEK - 3, 100, 1);
    // Weeks are counted towards the epoch, so of those before it only the very
    // start is within reach.
    let hit = service.fetch_from_cache("A", "1D", -WEEK - 3, 100).unwrap();
    assert_eq!(hit, [candle(-WEEK, 1.0), candle(7, 3.0)]);
    assert!(service.fetch_from_cache("A", "1D", -3 * WEEK, 100).is_none());
    assert_eq!(service.fetch_from_cache("A", "1D", 5, -5), service.fetch_from_cache("A", "1D", 50, 60));
}

#[test]
fn job_texts_are_read_as_json() {
    let raws: Vec<String> = ["{\"a\":1}", "nothing", "[2]"].iter().map(|s| s.to_string()).collect();
    assert_eq!(events_of(&raws).iter().map(|v| v.to_string()).collect::<Vec<_>>(), ["{\"a\":1}", "[2]"]);
    assert!(events_of(&vec![]).is_empty());
    assert_eq!(status_of(Some("{\"state\":\"done\"}")).unwrap().unwrap().to_string(), "{\"state\":\"done\"}");
    assert!(status_of(None).unwrap().is_none());
    assert!(status_of(Some("{")).is_err());
}

#[test]
fn tables_give_the_candles_of_a_span() {
    assert!(default_true());
    let mut csv = FromCsv::new("x.csv".to_string(), "1H".to_string(), true);
    assert!(csv.range(0, 10).is_none());
    assert_eq!(csv.load(vec![]).unwrap_err().message(), "CSV 'x.csv' contains no valid candles");
    csv.load(vec![candle(1, 1.0), candle(5, 2.0), candle(9, 3.0)]).unwrap();
    assert_eq!(csv.range(1, 9).unwrap(), vec![candle(1, 1.0), candle(5, 2.0)]);
    assert_eq!(provider_span(1, 2).unwrap(), (1, 2));
    assert!(provider_span(u64::MAX, 2).unwrap_err().message().starts_with("`from`"));
    assert!(provider_span(1, u64::MAX).unwrap_err().message().starts_with("`to`"));
}

// ---- Redis ---------------------------------------------------------------

#[test]
fn test_render_template() {
    let payload = object(vec![
        ("job_id", Value::from("abc-123")),
        ("progress", Value::from(42)),
        ("active", Value::from(true)),
    ]);

    assert_eq!(
        render_template("backtest:job:{job_id}:events", &payload),
        "backtest:job:abc-123:events"
    );
    assert_eq!(render_template("static:key", &payload), "static:key");
    assert_eq!(
        render_template("backtest:{job_id}:{progress}:{active}", &payload),
        "backtest:abc-123:42:true"
    );
    assert_eq!(render_template("keep:{unknown_field}", &payload), "keep:{unknown_field}");
}

#[test]
fn odd_templates_stand_as_they_are() {
    let payload = object(vec![("a", Value::Null), ("b", object(vec![("x", Value::from(1))]))]);
    assert_eq!(render_template("{}-{a}-{b}", &payload), "{}-null-{\"x\":1}");
    assert_eq!(render_template("open {a", &payload), "open {a");
    assert_eq!(render_template("}{a}", &Value::from(3)), "}{a}");
    assert_eq!(render_template("", &payload), "");
    let fields = vec![("a".to_string(), "1".to_string()), ("a".to_string(), "2".to_string())];
    assert_eq!(render_fields("{a}{b}{", &fields), "1{b}{");
    assert_eq!(parse_template("x{a}y").len(), 3);
    assert!(matches!(&parse_template("{a}")[0], Segment::Field(f) if f == "a"));
}

fn sink(mode: RedisSinkMode) -> RedisSink {
    RedisSink { id: "s".to_string(), inputs: vec![], uri: None, tenant_id: 1, mode }
}

#[test]
fn sinks_write_in_their_mode() {
    let payload = object(vec![("id", Value::from("j"))]);
    let s = sink(RedisSinkMode::Stream { key: "k:{id}".to_string() });
    assert_eq!(words(&s.write(&payload, "RAW")), vec!["XADD", "k:j", "*", "payload", "RAW"]);
    assert!(s.after_write(&payload).is_none());
    let s = sink(RedisSinkMode::List { key: "l:{id}".to_string(), cap: Some(100) });
    assert_eq!(words(&s.write(&payload, "RAW")), vec!["LPUSH", "l:j", "RAW"]);
    assert_eq!(words(&s.after_write(&payload).unwrap()), vec!["LTRIM", "l:j", "0", "99"]);
    let s = sink(RedisSinkMode::List { key: "l".to_string(), cap: Some(0) });
    assert_eq!(words(&s.after_write(&payload).unwrap()), vec!["LTRIM", "l", "0", "-1"]);
    let s = sink(RedisSinkMode::List { key: "l".to_string(), cap: None });
    assert!(s.after_write(&payload).is_none());
    let s = sink(RedisSinkMode::Publish { channel: "c".to_string() });
    assert_eq!(words(&s.write(&payload, "RAW")), vec!["PUBLISH", "c", "RAW"]);
    let s = sink(RedisSinkMode::Hash { key: "h".to_string(), field: "{id}".to_string() });
    assert_eq!(words(&s.write(&payload, "RAW")), vec!["HSET", "h", "j", "RAW"]);
}

fn field(k: &str, v: Option<&str>) -> (String, Option<String>) {
    (k.to_string(), v.map(|s| s.to_string()))
}

#[test]
fn entries_give_their_payload() {
    let fields = vec![field("a", Some("1")), field("payload", Some("{\"x\": [1, 2]}"))];
    assert_eq!(entry_payload(&fields).ok().unwrap().to_string(), "{\"x\":[1,2]}");
    assert_eq!(entry_payload(&vec![field("only", Some("7"))]).ok().unwrap(), Value::from(7));
    let fields = vec![field("a", Some("1")), field("b", None), field("c", Some("x"))];
    assert!(matches!(entry_content(&fields), Entry::Fields(v) if v.len() == 2));
    assert_eq!(entry_payload(&fields).ok().unwrap().to_string(), "{\"a\":\"1\",\"c\":\"x\"}");
    assert_eq!(entry_payload(&vec![field("payload", None)]).ok().unwrap().to_string(), "{}");
    let EntryError::Malformed { raw, .. } = entry_payload(&vec![field("payload", Some("{"))]).err().unwrap();
    assert_eq!(raw, "{");
    assert!(message_of("").is_none());
    assert_eq!(message_of("[1]").unwrap().ok().unwrap().to_string(), "[1]");
    assert!(message_of("nope").unwrap().is_err());
}

#[test]
fn sources_say_what_they_want() {
    assert_eq!(words(&create_group("k", "g")), vec!["XGROUP", "CREATE", "k", "g", "$", "MKSTREAM"]);
    assert_eq!(
        words(&read_pending("k", "g", "c")),
        vec!["XREADGROUP", "GROUP", "g", "c", "COUNT", "16", "STREAMS", "k", "0"]
    );
    assert_eq!(
        words(&read_new("k", "g", "c", 5000)),
        vec!["XREADGROUP", "GROUP", "g", "c", "COUNT", "16", "BLOCK", "5000", "STREAMS", "k", ">"]
    );
    assert!(acknowledge("k", "g", &vec![]).is_none());
    assert_eq!(
        words(&acknowledge("k", "g", &vec!["1-0".to_string(), "2-0".to_string()]).unwrap()),
        vec!["XACK", "k", "g", "1-0", "2-0"]
    );
    assert_eq!(words(&pop_tail("l", 5000)), vec!["BRPOP", "l", "5"]);
    assert_eq!(words(&pop_tail("l", 10)), vec!["BRPOP", "l", "1"]);
    assert_eq!(default_block_ms(), 5000);
    assert!(default_auto_ack());
    let s = RedisSource {
        id: "r".to_string(),
        uri: None,
        tenant_id: 0,
        mode: RedisSourceMode::PubSub { channel: "c".to_string() },
    };
    assert!(matches!(s.mode, RedisSourceMode::PubSub { .. }));
}

// ---- jobs ----------------------------------------------------------------

#[test]
fn job_keys() {
    assert_eq!(JOB_STREAM_KEY, "backtest:jobs");
    assert_eq!(job_status_key("j1"), "backtest:job:j1");
    assert_eq!(job_events_key("j1"), "backtest:job:j1:events");
    assert_eq!(job_cancel_key("j1"), "backtest:job:j1:cancel");
    assert_eq!(user_guard_key(-7, "u"), "backtest:user:-7:u:active");
    assert_eq!(result_key(3, "j1"), "backtest/3/j1.json");
    assert_eq!(default_lookback(), 2_592_000);
    assert_eq!(default_resolution_rebuild(), "1H");
    assert_eq!(default_resolution_test(), "5m");
    assert_eq!(default_guard_ttl(), 86_400);
}

#[test]
fn job_events_name_their_job() {
    let event = JobEvent { job_id: "j1".into(), tenant_id: 7, ts: 100, kind: JobEventKind::Started };
    assert_eq!(event.job_id, "j1");
    assert_eq!(event.kind.tag(), "started");
    assert_eq!(event.tenant_id, 7);
}

#[test]
fn test_order_event_conversion() {
    let event = OrderEvent::Rejected { ts: 1, grid: 0, level: 2, expected_profit: n(0.0), fee: n(0.001) };
    let kind = JobEventKind::of(event, "fee".into());
    assert_eq!(kind.tag(), "order_rejected");
    assert!(matches!(kind, JobEventKind::OrderRejected { ts: 1, grid: 0, level: 2, reason } if reason == "fee"));
}

#[test]
fn test_closed_event_reason_inference() {
    let order = Order {
        dtype: OrderType::Long,
        entry_price: n(100.0),
        sl_price: n(95.0),
        tp_price: n(110.0),
        exit_price: Some(n(94.0)),
        pnl_pct: Some(n(-0.05)),
        ..Default::default()
    };
    let kind = JobEventKind::of(OrderEvent::Closed { ts: 5, order }, String::new());
    assert_eq!(kind.tag(), "order_closed");
    assert!(
        matches!(kind, JobEventKind::OrderClosed { reason, entry_price, .. } if reason == "stop_loss" && entry_price == n(100.0))
    );
    assert_eq!(close_reason(&Order { exit_price: Some(n(110.0)), ..order }), "take_profit");
    assert_eq!(close_reason(&Order { dtype: OrderType::Short, exit_price: Some(n(95.0)), ..order }), "stop_loss");
    assert_eq!(close_reason(&Order { dtype: OrderType::Unknown, ..order }), "take_profit");
}

#[test]
fn order_events_become_job_events() {
    let order = Order { dtype: OrderType::Short, grid_index: 1, level_index: 2, unlock_seq: 9, ..Default::default() };
    let kind = JobEventKind::of(OrderEvent::Placed { ts: 4, order }, String::new());
    assert!(matches!(kind, JobEventKind::OrderPlaced { ts: 4, grid: 1, level: 2, long: false, unlock_seq: 9, .. }));
    let grids = vec![GridSnapshot { levels: vec![n(1.0)] }];
    let kind = JobEventKind::of(OrderEvent::Rebuilt { ts: 4, grids }, String::new());
    assert_eq!(kind.tag(), "grid_rebuilt");
}

#[test]
fn a_slot_is_freed_by_its_holder_only() {
    assert_eq!(
        words(&acquire_user_slot(1, "u", "j", 60)),
        vec!["SET", "backtest:user:1:u:active", "j", "NX", "EX", "60"]
    );
    assert_eq!(words(&read_user_slot(1, "u")), vec!["GET", "backtest:user:1:u:active"]);
    assert_eq!(
        words(&release_user_slot(1, "u", "j", &Some("j".to_string())).unwrap()),
        vec!["DEL", "backtest:user:1:u:active"]
    );
    assert!(release_user_slot(1, "u", "j", &Some("k".to_string())).is_none());
    assert!(release_user_slot(1, "u", "j", &None).is_none());
}

#[test]
fn the_control_plane_speaks_redis() {
    assert_eq!(words(&write_status("j", "{}")), vec!["HSET", "backtest:job:j", "status", "{}"]);
    assert_eq!(words(&read_status("j")), vec!["HGET", "backtest:job:j", "status"]);
    assert_eq!(words(&read_events("j", 50)), vec!["LRANGE", "backtest:job:j:events", "0", "49"]);
    assert_eq!(words(&read_events("j", 0)), vec!["LRANGE", "backtest:job:j:events", "0", "0"]);
    assert_eq!(words(&request_cancel("j")), vec!["SET", "backtest:job:j:cancel", "1"]);
    assert_eq!(words(&read_cancel("j")), vec!["EXISTS", "backtest:job:j:cancel"]);
}

#[test]
fn a_job_goes_from_its_slot_to_its_end() {
    let s = on_no_worker("closed");
    assert_eq!((s.state, s.error.as_deref()), (JobState::Failed, Some("semaphore closed: closed")));
    let (s, runs) = on_slot(SlotReply::Taken, "u", 3, 4);
    assert!(runs);
    assert_eq!((s.state.name(), s.progress, s.submitted_at, s.started_at), ("running", Some(n(0.0)), Some(3), Some(4)));
    let (s, runs) = on_slot(SlotReply::HeldByOther, "u", 3, 4);
    assert!(!runs);
    assert_eq!(s.error.as_deref(), Some("user u already has a running backtest"));
    assert_eq!(s.finished_at, Some(4));
    let (s, runs) = on_slot(SlotReply::Error("down".to_string()), "u", 3, 4);
    assert!(!runs);
    assert_eq!((s.error.as_deref(), s.submitted_at), (Some("down"), None));

    let (s, e) = on_end(RunEnd::Done { score: n(1.5), s3_key: Some("k".to_string()) }, 3, 9);
    assert_eq!((s.state.name(), s.progress, s.score), ("finished", Some(n(100.0)), Some(n(1.5))));
    assert_eq!(s.s3_key.as_deref(), Some("k"));
    assert!(matches!(e, JobEventKind::Finished { score } if score == n(1.5)));
    let (s, e) = on_end(RunEnd::Cancelled, 3, 9);
    assert_eq!((s.state.name(), s.error, e.tag()), ("cancelled", None, "cancelled"));
    let (s, e) = on_end(RunEnd::Error("x".to_string()), 3, 9);
    assert_eq!((s.state.name(), s.error.as_deref()), ("failed", Some("backtest failed: x")));
    assert!(matches!(e, JobEventKind::Failed { reason } if reason == "backtest failed: x"));
    let (s, _) = on_end(RunEnd::Panic("x".to_string()), 3, 9);
    assert_eq!(s.error.as_deref(), Some("backtest task panicked: x"));
}

#[test]
fn executors_have_a_worker_at_least() {
    assert_eq!(default_market("simplefx"), Market::Crypto);
    assert_eq!(default_market("ssi"), Market::Stock);
    let e = BacktestExecutor { id: "x".to_string(), inputs: vec![], max_workers: 0, guard_ttl_secs: 1 };
    assert_eq!(e.workers(), 1);
    assert_eq!(BacktestExecutor { max_workers: 4, ..e }.workers(), 4);
}

// ---- Telegram ------------------------------------------------------------

#[test]
fn test_telegram_message_builder() {
    let msg = TelegramMessage::new("Hello")
        .with_token("bot123".into())
        .with_chat_id(456)
        .with_parse_mode("Markdown");

    assert_eq!(msg.text, "Hello");
    assert_eq!(msg.token, Some("bot123".into()));
    assert_eq!(msg.chat_id, Some(456));
    assert_eq!(msg.parse_mode, Some("Markdown".into()));
}

#[test]
fn test_telegram_message_default() {
    let msg = TelegramMessage::default();
    assert_eq!(msg.text, "");
    assert!(msg.token.is_none());
    assert!(msg.chat_id.is_none());
    assert!(!msg.disable_web_page_preview);
    assert!(!msg.disable_notification);
}

#[test]
fn what_the_message_sets_goes_first() {
    let mut sink = TelegramSink {
        id: "t".to_string(),
        inputs: vec![],
        token: None,
        chat_id: None,
        timeout_secs: default_timeout(),
    };
    assert_eq!(sink.timeout_secs, 30);
    let msg = TelegramMessage::new("hi");
    assert_eq!(sink.request(&msg).unwrap_err(), TelegramError::MissingToken);
    sink.token = Some("S".to_string());
    assert_eq!(sink.request(&msg).unwrap_err(), TelegramError::MissingChatId);
    assert!(TelegramError::MissingToken.message().contains("bot token"));
    assert!(TelegramError::MissingChatId.message().contains("chat_id"));
    sink.chat_id = Some(5);
    let r = sink.request(&msg).unwrap();
    assert_eq!(r.url, "https://api.telegram.org/botS/sendMessage");
    assert_eq!((r.chat_id, r.text.as_str(), r.parse_mode), (5, "hi", None));
    let r = sink.request(&msg.with_token("M".to_string()).with_chat_id(6).with_parse_mode("HTML")).unwrap();
    assert_eq!(r.url, "https://api.telegram.org/botM/sendMessage");
    assert_eq!((r.chat_id, r.parse_mode.as_deref()), (6, Some("HTML")));
}

// ---- paper trading -------------------------------------------------------

fn tick(broker: &str, symbol: &str, price: f64, timestamp: i64) -> Tick {
    Tick {
        broker: broker.to_string(),
        symbol: symbol.to_string(),
        price: n(price),
        quantity: n(1.0),
        timestamp,
        candlestick: None,
    }
}

#[test]
fn ticks_close_the_candles_of_their_market() {
    assert_eq!(default_analysis_resolution(), "1H");
    assert_eq!(default_trading_resolution(), "5m");
    assert_eq!(missing_setting(true, true, true, true), None);
    assert_eq!(missing_setting(true, false, false, true), Some(Setting::Fee));
    assert_eq!(Setting::Calendar.message(), "`calendar` is required");

    let start = |b: &str| {
        Sandbox::start(
            b.to_string(),
            "BTC".to_string(),
            vec![Order::default()],
            default_analysis_resolution(),
            default_trading_resolution(),
        )
    };
    let mut boxes = Sandboxes { items: vec![start("a"), start("b"), start("a")] };
    assert_eq!(boxes.items[0].interval, 300_000);
    assert_eq!(boxes.items[0].history.len(), 1);
    assert_eq!(boxes.find("a", "BTC"), Some(2));
    assert_eq!(boxes.find("a", "ETH"), None);
    let t0 = 1_700_000_100_000;
    assert!(boxes.on_tick(2, &tick("a", "BTC", 10.0, t0), n(1.0)).is_none());
    assert!(boxes.on_tick(2, &tick("a", "BTC", 12.0, t0 + 1), n(2.0)).is_none());
    let closed = boxes.on_tick(2, &tick("a", "BTC", 11.0, t0 + 300_000), n(3.0)).unwrap();
    assert_eq!((closed.o, closed.h, closed.l, closed.c, closed.v), (n(10.0), n(12.0), n(10.0), n(12.0), n(2.0)));
    assert_eq!(boxes.items[0].candle.t, 0);
    assert_eq!(only_candle(&candle(7, 1.0), 7, 8).len(), 1);
    assert!(only_candle(&candle(7, 1.0), 8, 9).is_empty());
}

// ---- the course of a job -------------------------------------------------

fn course(inputs: Vec<JobInput>) -> (JobRun, Vec<Vec<String>>) {
    let mut job = JobRun::new(7, "j".to_string(), "u".to_string(), 3);
    let done = inputs
        .into_iter()
        .map(|input| {
            job.step(input, 9)
                .iter()
                .map(|a| match a {
                    JobAction::AcquireSlot => "acquire".to_string(),
                    JobAction::Write(s) => format!("write {}", s.state.name()),
                    JobAction::Emit(k) => format!("emit {}", k.tag()),
                    JobAction::Run => "run".to_string(),
                    JobAction::Abort => "abort".to_string(),
                    JobAction::ReleaseSlot => "release".to_string(),
                    JobAction::Store(key) => format!("store {key}"),
                })
                .collect()
        })
        .collect();
    (job, done)
}

#[test]
fn a_job_takes_its_course() {
    let (job, done) = course(vec![
        JobInput::Worker,
        JobInput::Slot(SlotReply::Taken),
        JobInput::Scored(n(1.5)),
        JobInput::Stored(true),
        JobInput::CancelAsked,
    ]);
    assert_eq!(job.phase, JobPhase::Over);
    assert_eq!(done[0], ["acquire"]);
    assert_eq!(done[1], ["write running", "emit started", "run"]);
    assert_eq!(done[2], ["release", "store backtest/7/j.json"]);
    assert_eq!(done[3], ["write finished", "emit finished"]);
    assert!(done[4].is_empty());
}

#[test]
fn a_slot_that_was_taken_is_given_back_once() {
    let ends = [
        JobInput::RunFailed("x".to_string()),
        JobInput::RunPanicked("x".to_string()),
        JobInput::CancelAsked,
        JobInput::Scored(n(0.0)),
    ];
    for end in ends {
        let cancelled = matches!(end, JobInput::CancelAsked);
        let (_, done) =
            course(vec![JobInput::Worker, JobInput::Slot(SlotReply::Taken), end, JobInput::CancelAsked]);
        let released = done.iter().flatten().filter(|a| *a == "release").count();
        assert_eq!(released, 1);
        assert_eq!(done.iter().flatten().any(|a| a == "abort"), cancelled);
    }
    let (job, done) = course(vec![JobInput::Worker, JobInput::Slot(SlotReply::HeldByOther), JobInput::CancelAsked]);
    assert_eq!(job.phase, JobPhase::Over);
    assert_eq!(done[1], ["write failed"]);
    assert!(!done.iter().flatten().any(|a| a == "release"));
    let (job, done) = course(vec![JobInput::NoWorker("closed".to_string())]);
    assert_eq!((job.phase, done[0].len()), (JobPhase::Over, 1));
}

#[test]
fn a_result_that_was_stored_is_named() {
    for stored in [true, false] {
        let mut job = JobRun::new(7, "j".to_string(), "u".to_string(), 3);
        job.step(JobInput::Worker, 4);
        job.step(JobInput::Slot(SlotReply::Taken), 5);
        job.step(JobInput::Scored(n(1.5)), 6);
        let last = job.step(JobInput::Stored(stored), 7);
        let JobAction::Write(status) = &last[0] else { panic!("no status") };
        assert_eq!(status.s3_key.as_deref(), if stored { Some("backtest/7/j.json") } else { None });
        assert_eq!((status.score, status.finished_at), (Some(n(1.5)), Some(7)));
    }
}
