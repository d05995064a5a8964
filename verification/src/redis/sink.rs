//! Writing messages to Redis.
use vstd::prelude::*;

use crate::json::member_texts;
use crate::redis::template::{render_template, rendered};
use crate::redis::RedisCommand;
use crate::text::{decimal, signed_decimal, signed_decimal_text};

verus! {

/// How messages are written.
#[derive(Clone, Debug)]
pub enum RedisSinkMode {
    /// As entries of a stream.
    Stream { key: String },
    /// At the head of a list, which keeps the newest `cap` where that is given.
    List { key: String, cap: Option<usize> },
    /// To the subscribers of a channel.
    Publish { channel: String },
    /// As the value of a field of a hash.
    Hash { key: String, field: String },
}

/// A sink of messages.
#[derive(Debug)]
pub struct RedisSink {
    pub id: String,
    pub inputs: Vec<String>,
    /// Where to connect, without a connection of the tenant.
    pub uri: Option<String>,
    pub tenant_id: i64,
    pub mode: RedisSinkMode,
}

impl RedisSinkMode {
    /// The command that writes a message.
    pub open spec fn writes(self, raw: Seq<char>, m: Map<Seq<char>, Seq<char>>) -> Seq<Seq<char>> {
        match self {
            RedisSinkMode::Stream { key } => seq!["XADD"@, rendered(key@, m), "*"@, "payload"@, raw],
            RedisSinkMode::List { key, .. } => seq!["LPUSH"@, rendered(key@, m), raw],
            RedisSinkMode::Publish { channel } => seq!["PUBLISH"@, rendered(channel@, m), raw],
            RedisSinkMode::Hash { key, field } => seq!["HSET"@, rendered(key@, m), rendered(field@, m), raw],
        }
    }

    /// The command that follows a write that succeeded: a list with a cap is cut
    /// to its newest entries.
    pub open spec fn follows(self, m: Map<Seq<char>, Seq<char>>) -> Option<Seq<Seq<char>>> {
        match self {
            RedisSinkMode::List { key, cap: Some(cap) } => Some(
                seq!["LTRIM"@, rendered(key@, m), decimal(0), signed_decimal(cap - 1)],
            ),
            _ => None,
        }
    }
}

impl RedisSink {
    /// The command that writes a message, given as JSON text and as the value
    /// that fills in the key.
    pub fn write(&self, payload: &serde_json::Value, raw: &str) -> (r: RedisCommand)
        ensures
            r.words() == self.mode.writes(raw@, member_texts(*payload)),
    {
        let r: RedisCommand;
        match &self.mode {
            RedisSinkMode::Stream { key } => {
                let k = render_template(key, payload);
                r = RedisCommand::new("XADD").arg(&k).arg("*").arg("payload").arg(raw);
            },
            RedisSinkMode::List { key, .. } => {
                let k = render_template(key, payload);
                r = RedisCommand::new("LPUSH").arg(&k).arg(raw);
            },
            RedisSinkMode::Publish { channel } => {
                let k = render_template(channel, payload);
                r = RedisCommand::new("PUBLISH").arg(&k).arg(raw);
            },
            RedisSinkMode::Hash { key, field } => {
                let k = render_template(key, payload);
                let f = render_template(field, payload);
                r = RedisCommand::new("HSET").arg(&k).arg(&f).arg(raw);
            },
        }
        assert(r.words() =~= self.mode.writes(raw@, member_texts(*payload)));
        r
    }

    /// The command that follows a write that succeeded.
    pub fn after_write(&self, payload: &serde_json::Value) -> (r: Option<RedisCommand>)
        requires
            self.mode matches RedisSinkMode::List { cap: Some(cap), .. } ==> cap <= i64::MAX,
        ensures
            r is Some <==> self.mode.follows(member_texts(*payload)) is Some,
            r matches Some(c) ==> Some(c.words()) == self.mode.follows(member_texts(*payload)),
    {
        match &self.mode {
            RedisSinkMode::List { key, cap: Some(cap) } => {
                let k = render_template(key, payload);
                let zero = crate::text::decimal_text(0);
                let last: i64 = *cap as i64 - 1;
                let c = RedisCommand::new("LTRIM").arg(&k).arg(&zero).arg(&signed_decimal_text(last));
                assert(Some(c.words()) =~= self.mode.follows(member_texts(*payload)));
                Some(c)
            },
            _ => None,
        }
    }
}

} // verus!
