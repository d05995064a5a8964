//! What is said to a Redis server, and what is made of its replies.
use vstd::prelude::*;

use crate::text::texts;

pub mod sink;
pub mod source;
pub mod template;

verus! {

/// A command: its name and its arguments, in order.
#[derive(Debug)]
pub struct RedisCommand {
    pub parts: Vec<String>,
}

impl RedisCommand {
    /// The words of the command.
    pub open spec fn words(self) -> Seq<Seq<char>> {
        texts(self.parts@)
    }

    /// A command without arguments.
    pub fn new(name: &str) -> (r: RedisCommand)
        ensures
            r.words() == seq![name@],
    {
        let mut parts: Vec<String> = Vec::new();
        parts.push(name.to_owned());
        let r = RedisCommand { parts };
        assert(r.words() =~= seq![name@]);
        r
    }

    /// The command with one more argument.
    pub fn arg(self, text: &str) -> (r: RedisCommand)
        ensures
            r.words() == self.words().push(text@),
    {
        let mut parts = self.parts;
        let ghost before = parts@;
        parts.push(text.to_owned());
        let r = RedisCommand { parts };
        assert(r.words() =~= texts(before).push(text@));
        r
    }
}

} // verus!
