//! Candles for a backtest, from a provider or from a table.
use vstd::prelude::*;

use crate::candle::CandleStick;
use crate::series::{candles_within, span_of};

verus! {

/// Whether a table has a header where nothing is configured.
pub fn default_true() -> (r: bool)
    ensures
        r,
{
    true
}

/// The blocks that a provider's candles are kept in.
pub const PROVIDER_BLOCKS: usize = 32;

/// Why candles could not be loaded.
#[derive(Debug)]
pub enum LoadError {
    /// The start of the span is too large.
    From,
    /// The end of the span is too large.
    To,
    /// The table has no candle.
    NoCandles { path: String },
}

impl LoadError {
    /// What the error says of a table without candles.
    pub open spec fn empty_text(path: Seq<char>) -> Seq<char> {
        "CSV '"@ + path + "' contains no valid candles"@
    }

    /// What the error says.
    pub open spec fn text(self) -> Seq<char> {
        match self {
            LoadError::From => "`from` converting failed: out of range integral type conversion attempted"@,
            LoadError::To => "`to` converting failed: out of range integral type conversion attempted"@,
            LoadError::NoCandles { path } => LoadError::empty_text(path@),
        }
    }

    /// What the error says.
    pub fn message(&self) -> (s: String)
        ensures
            s@ == self.text(),
    {
        match self {
            LoadError::From => "`from` converting failed: out of range integral type conversion attempted".to_owned(),
            LoadError::To => "`to` converting failed: out of range integral type conversion attempted".to_owned(),
            LoadError::NoCandles { path } => {
                let mut s = "CSV '".to_owned();
                s.append(path);
                s.append("' contains no valid candles");
                s
            },
        }
    }
}

/// A span as a provider is asked for it.
pub fn provider_span(from: u64, to: u64) -> (r: Result<(i64, i64), LoadError>)
    ensures
        from > i64::MAX ==> r == Err::<(i64, i64), LoadError>(LoadError::From),
        from <= i64::MAX && to > i64::MAX ==> r == Err::<(i64, i64), LoadError>(LoadError::To),
        from <= i64::MAX && to <= i64::MAX ==> r == Ok::<(i64, i64), LoadError>((from as i64, to as i64)),
{
    if from > i64::MAX as u64 {
        Err(LoadError::From)
    } else if to > i64::MAX as u64 {
        Err(LoadError::To)
    } else {
        Ok((from as i64, to as i64))
    }
}

/// Candles of a table.
#[derive(Debug)]
pub struct FromCsv {
    pub path: String,
    pub resolution: String,
    pub has_header: bool,
    /// The candles, once the table was read.
    pub candles: Option<Vec<CandleStick>>,
}

impl FromCsv {
    /// A table that was not read yet.
    pub fn new(path: String, resolution: String, has_header: bool) -> (r: FromCsv)
        ensures
            r == (FromCsv { path, resolution, has_header, candles: None }),
    {
        FromCsv { path, resolution, has_header, candles: None }
    }

    /// Takes in the rows of the table that are candles. A table without any is
    /// an error, and stays unread.
    pub fn load(&mut self, rows: Vec<CandleStick>) -> (r: Result<(), LoadError>)
        ensures
            r is Err <==> rows@.len() == 0,
            r matches Err(e) ==> *final(self) == *old(self) && e.text() == LoadError::empty_text(old(self).path@),
            r is Ok ==> *final(self) == (FromCsv { candles: Some(rows), ..*old(self) }),
    {
        if rows.len() == 0 {
            return Err(LoadError::NoCandles { path: self.path.as_str().to_owned() });
        }
        self.candles = Some(rows);
        Ok(())
    }

    /// The candles of a span, the end left out; nothing before the table is read.
    pub fn range(&self, from: u64, to: u64) -> (r: Option<Vec<CandleStick>>)
        ensures
            r is Some <==> self.candles is Some,
            r matches Some(v) ==> self.candles is Some && v@ == span_of(self.candles->0@, from as int, to as int),
    {
        match &self.candles {
            Some(c) => Some(candles_within(c, from, to)),
            None => None,
        }
    }
}

} // verus!
