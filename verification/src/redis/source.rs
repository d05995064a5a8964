//! Reading messages from Redis.
use vstd::prelude::*;

use crate::json::{last_values, member_texts, object_of, parse_json, parsed_json, string_object};
use crate::redis::RedisCommand;
use crate::text::{decimal, decimal_text, same, texts};

verus! {

/// The most entries that are read at once.
pub const BATCH: u64 = 16;

/// How messages are read.
#[derive(Clone, Debug)]
pub enum RedisSourceMode {
    /// From a stream, as a consumer of a group.
    Stream { key: String, group: String, consumer: String, block_ms: u64, auto_ack: bool },
    /// From a channel.
    PubSub { channel: String },
    /// From the tail of a list.
    List { key: String, block_ms: u64 },
}

/// A source of messages.
#[derive(Debug)]
pub struct RedisSource {
    pub id: String,
    /// Where to connect, without a connection of the tenant.
    pub uri: Option<String>,
    pub tenant_id: i64,
    pub mode: RedisSourceMode,
}

/// How long a read waits where nothing is configured.
pub fn default_block_ms() -> (r: u64)
    ensures
        r == 5000,
{
    5000
}

/// Whether entries are acknowledged where nothing is configured.
pub fn default_auto_ack() -> (r: bool)
    ensures
        r,
{
    true
}

/// What is taken of a stream's entry.
pub enum Entry {
    /// This JSON text.
    Raw(String),
    /// The fields that have a value.
    Fields(Vec<(String, String)>),
}

/// A field of an entry, by name.
pub open spec fn field_view(f: (String, Option<String>)) -> (Seq<char>, Option<Seq<char>>) {
    (
        f.0@,
        match f.1 {
            Some(s) => Some(s@),
            None => None,
        },
    )
}

/// The fields of an entry, by name.
pub open spec fn entry_view(fields: Seq<(String, Option<String>)>) -> Seq<(Seq<char>, Option<Seq<char>>)> {
    Seq::new(fields.len(), |i: int| field_view(fields[i]))
}

/// Whether a field is the payload, and has a value.
pub open spec fn is_payload(f: (Seq<char>, Option<Seq<char>>)) -> bool {
    f.0 == "payload"@ && f.1 is Some
}

/// The fields that have a value among the first `n`.
pub open spec fn valued(fields: Seq<(Seq<char>, Option<Seq<char>>)>, n: nat) -> Seq<(Seq<char>, Seq<char>)>
    decreases n,
{
    if n == 0 {
        Seq::empty()
    } else {
        let before = valued(fields, (n - 1) as nat);
        match fields[n - 1].1 {
            Some(v) => before.push((fields[n - 1].0, v)),
            None => before,
        }
    }
}

/// The pairs of a list, as text.
pub open spec fn pairs_view(v: Seq<(String, String)>) -> Seq<(Seq<char>, Seq<char>)> {
    Seq::new(v.len(), |i: int| (v[i].0@, v[i].1@))
}

/// Whether `r` is what is taken of an entry: the value of its payload; else the
/// value of its one field; else the fields that have a value.
pub open spec fn is_taken(fields: Seq<(Seq<char>, Option<Seq<char>>)>, r: Entry) -> bool {
    if exists|i: int| 0 <= i < fields.len() && is_payload(#[trigger] fields[i]) {
        r matches Entry::Raw(s) && exists|i: int|
            0 <= i < fields.len() && is_payload(#[trigger] fields[i]) && fields[i].1 == Some(s@)
    } else if fields.len() == 1 && fields[0].1 is Some {
        r matches Entry::Raw(s) && fields[0].1 == Some(s@)
    } else {
        r matches Entry::Fields(v) && pairs_view(v@) == valued(fields, fields.len())
    }
}

/// What is taken of an entry. No field occurs twice.
pub fn entry_content(fields: &Vec<(String, Option<String>)>) -> (r: Entry)
    requires
        forall|i: int, j: int|
            0 <= i < j < fields@.len() ==> (#[trigger] fields@[i]).0@ != (#[trigger] fields@[j]).0@,
    ensures
        is_taken(entry_view(fields@), r),
{
    let ghost fs = entry_view(fields@);
    let n: usize = fields.len();
    let mut i: usize = 0;
    while i < n
        invariant
            n == fields@.len(),
            i <= n,
            fs == entry_view(fields@),
            forall|k: int| 0 <= k < i ==> !is_payload(#[trigger] fs[k]),
        decreases n - i,
    {
        assert(fs[i as int] == field_view(fields@[i as int]));
        if same(&fields[i].0, "payload") {
            if let Some(raw) = &fields[i].1 {
                assert(is_payload(fs[i as int]));
                return Entry::Raw(raw.as_str().to_owned());
            }
        }
        i += 1;
    }
    if n == 1 {
        assert(fs[0] == field_view(fields@[0]));
        if let Some(raw) = &fields[0].1 {
            return Entry::Raw(raw.as_str().to_owned());
        }
    }
    let mut out: Vec<(String, String)> = Vec::new();
    let mut k: usize = 0;
    assert(pairs_view(out@) =~= valued(fs, 0));
    while k < n
        invariant
            n == fields@.len(),
            k <= n,
            fs == entry_view(fields@),
            pairs_view(out@) == valued(fs, k as nat),
        decreases n - k,
    {
        assert(fs[k as int] == field_view(fields@[k as int]));
        let ghost before = out@;
        if let Some(v) = &fields[k].1 {
            let name = fields[k].0.as_str().to_owned();
            let value = v.as_str().to_owned();
            out.push((name, value));
            assert(pairs_view(out@) =~= pairs_view(before).push((name@, value@)));
        }
        k += 1;
    }
    Entry::Fields(out)
}

/// Why an entry gives no message.
pub enum EntryError {
    /// Its payload is no JSON.
    Malformed { error: serde_json::Error, raw: String },
}

/// What the content of an entry gives: the value of a JSON text, or the error,
/// or an object of the fields.
pub fn entry_message(entry: Entry) -> (r: Result<serde_json::Value, EntryError>)
    ensures
        entry matches Entry::Raw(s) ==> (r is Ok <==> parsed_json(s@) is Some),
        entry matches Entry::Raw(s) ==> (r matches Ok(v) ==> parsed_json(s@) == Some(v)),
        entry matches Entry::Raw(s) ==> (r matches Err(EntryError::Malformed { raw, .. }) ==> raw@ == s@),
        entry matches Entry::Fields(v) ==> r == Ok::<serde_json::Value, EntryError>(string_object(last_values(v@)))
            && member_texts(r->Ok_0) == last_values(v@),
{
    match entry {
        Entry::Raw(raw) => match parse_json(&raw) {
            Ok(v) => Ok(v),
            Err(error) => Err(EntryError::Malformed { error, raw }),
        },
        Entry::Fields(fields) => {
            let ghost given = last_values(fields@);
            let v = object_of(fields);
            assert(member_texts(v) =~= given);
            Ok(v)
        },
    }
}

/// The message of a stream's entry. No field occurs twice.
pub fn entry_payload(fields: &Vec<(String, Option<String>)>) -> (r: Result<serde_json::Value, EntryError>)
    requires
        forall|i: int, j: int|
            0 <= i < j < fields@.len() ==> (#[trigger] fields@[i]).0@ != (#[trigger] fields@[j]).0@,
    ensures
        exists|entry: Entry| #[trigger]
            is_taken(entry_view(fields@), entry) && match entry {
                Entry::Raw(s) => match r {
                    Ok(v) => parsed_json(s@) == Some(v),
                    Err(EntryError::Malformed { raw, .. }) => parsed_json(s@) is None && raw@ == s@,
                },
                Entry::Fields(v) => r == Ok::<serde_json::Value, EntryError>(string_object(last_values(v@)))
                    && member_texts(r->Ok_0) == last_values(v@),
            },
{
    let entry = entry_content(fields);
    let ghost e = entry;
    let r = entry_message(entry);
    assert(is_taken(entry_view(fields@), e));
    r
}

/// What a JSON text of a channel, a list or an entry gives: nothing for an empty
/// text, else its value, or the error.
pub fn message_of(raw: &str) -> (r: Option<Result<serde_json::Value, EntryError>>)
    ensures
        raw@.len() == 0 ==> r is None,
        raw@.len() > 0 && parsed_json(raw@) is Some ==> r == Some(
            Ok::<serde_json::Value, EntryError>(parsed_json(raw@)->0),
        ),
        raw@.len() > 0 && parsed_json(raw@) is None ==> (r matches Some(
            Err(EntryError::Malformed { raw: kept, .. }),
        ) && kept@ == raw@),
{
    if same(raw, "") {
        proof {
            reveal_strlit("");
        }
        return None;
    }
    proof {
        reveal_strlit("");
        if raw@.len() == 0 {
            assert(raw@ =~= ""@);
        }
    }
    match parse_json(raw) {
        Ok(v) => Some(Ok(v)),
        Err(error) => Some(Err(EntryError::Malformed { error, raw: raw.to_owned() })),
    }
}

/// The words of a read from a stream, as a consumer of a group.
pub open spec fn group_read(
    key: Seq<char>,
    group: Seq<char>,
    consumer: Seq<char>,
    block_ms: Option<u64>,
    after: Seq<char>,
) -> Seq<Seq<char>> {
    let head = seq!["XREADGROUP"@, "GROUP"@, group, consumer, "COUNT"@, decimal(BATCH as nat)];
    let wait = match block_ms {
        Some(ms) => seq!["BLOCK"@, decimal(ms as nat)],
        None => Seq::empty(),
    };
    head + wait + seq!["STREAMS"@, key, after]
}

fn group_head(group: &str, consumer: &str) -> (r: RedisCommand)
    ensures
        r.words() == seq!["XREADGROUP"@, "GROUP"@, group@, consumer@, "COUNT"@, decimal(BATCH as nat)],
{
    let r = RedisCommand::new("XREADGROUP").arg("GROUP").arg(group).arg(consumer).arg("COUNT").arg(&decimal_text(BATCH));
    assert(r.words() =~= seq!["XREADGROUP"@, "GROUP"@, group@, consumer@, "COUNT"@, decimal(BATCH as nat)]);
    r
}

/// Makes the group of a stream, and the stream where it is not there.
pub fn create_group(key: &str, group: &str) -> (r: RedisCommand)
    ensures
        r.words() == seq!["XGROUP"@, "CREATE"@, key@, group@, "$"@, "MKSTREAM"@],
{
    let r = RedisCommand::new("XGROUP").arg("CREATE").arg(key).arg(group).arg("$").arg("MKSTREAM");
    assert(r.words() =~= seq!["XGROUP"@, "CREATE"@, key@, group@, "$"@, "MKSTREAM"@]);
    r
}

/// Reads the entries that the consumer got before and did not acknowledge.
pub fn read_pending(key: &str, group: &str, consumer: &str) -> (r: RedisCommand)
    ensures
        r.words() == group_read(key@, group@, consumer@, None, "0"@),
{
    let r = group_head(group, consumer).arg("STREAMS").arg(key).arg("0");
    assert(r.words() =~= group_read(key@, group@, consumer@, None, "0"@));
    r
}

/// Reads the entries that no consumer got yet.
pub fn read_new(key: &str, group: &str, consumer: &str, block_ms: u64) -> (r: RedisCommand)
    ensures
        r.words() == group_read(key@, group@, consumer@, Some(block_ms), ">"@),
{
    let r = group_head(group, consumer).arg("BLOCK").arg(&decimal_text(block_ms)).arg("STREAMS").arg(key).arg(">");
    assert(r.words() =~= group_read(key@, group@, consumer@, Some(block_ms), ">"@));
    r
}

/// Acknowledges entries; nothing to say where there are none.
pub fn acknowledge(key: &str, group: &str, ids: &Vec<String>) -> (r: Option<RedisCommand>)
    ensures
        r is None <==> ids@.len() == 0,
        r matches Some(c) ==> c.words() == seq!["XACK"@, key@, group@] + texts(ids@),
{
    if ids.len() == 0 {
        return None;
    }
    let mut c = RedisCommand::new("XACK").arg(key).arg(group);
    let mut i: usize = 0;
    assert(c.words() =~= seq!["XACK"@, key@, group@] + texts(ids@).take(0));
    while i < ids.len()
        invariant
            i <= ids@.len(),
            c.words() == seq!["XACK"@, key@, group@] + texts(ids@).take(i as int),
        decreases ids@.len() - i,
    {
        let ghost before = c.words();
        c = c.arg(&ids[i]);
        assert(c.words() =~= seq!["XACK"@, key@, group@] + texts(ids@).take(i + 1));
        i += 1;
    }
    assert(texts(ids@).take(i as int) =~= texts(ids@));
    Some(c)
}

/// Waits for the tail of a list, for at least one second.
pub fn pop_tail(key: &str, block_ms: u64) -> (r: RedisCommand)
    ensures
        r.words() == seq!["BRPOP"@, key@, decimal(if block_ms / 1000 >= 1 { (block_ms / 1000) as nat } else { 1nat })],
{
    let secs: u64 = if block_ms / 1000 >= 1 { block_ms / 1000 } else { 1 };
    let r = RedisCommand::new("BRPOP").arg(key).arg(&decimal_text(secs));
    assert(r.words() =~= seq!["BRPOP"@, key@, decimal(secs as nat)]);
    r
}

} // verus!
