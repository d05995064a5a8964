//! Market data providers: where their candles are, and how they are asked for.
use vstd::prelude::*;

use crate::candle::CandleStick;
use crate::json::{
    distinct_names, integer_of, json_integer, json_string, last_values, parse_strings, parsed_strings, string_of,
};
use crate::num::Num;
use crate::text::{
    decimal, decimal_text, parse_i64, replace_all, replaced, same, signed_decimal, signed_decimal_text, whole_number,
};

verus! {

/// The most candles that are asked for at once.
pub const MAX_LIMIT: usize = 1000;

/// How a provider is asked, and where in its answer the six columns are: time,
/// open, high, low, close and volume.
#[derive(Debug)]
pub struct Profile {
    pub url_template: &'static str,
    pub paths: Vec<&'static str>,
}

/// What a profile holds.
pub open spec fn profile_view(p: Profile) -> (Seq<char>, Seq<Seq<char>>) {
    (p.url_template@, Seq::new(p.paths@.len(), |i: int| p.paths@[i]@))
}

/// The profile of a provider.
pub open spec fn profile_of(name: Seq<char>) -> Option<(Seq<char>, Seq<Seq<char>>)> {
    if name == "ssi"@ {
        Some(
            (
                "https://iboard-api.ssi.com.vn/statistics/charts/history?from={from}&to={to}&symbol={stock}&resolution={res}"@,
                seq!["data.t[]"@, "data.o[]"@, "data.h[]"@, "data.l[]"@, "data.c[]"@, "data.v[]"@],
            ),
        )
    } else if name == "vix"@ {
        Some(
            (
                " https://xpower.vixs.vn/tvchart/history?resolution={res}&symbol={stock}&from={from}&to={to}"@,
                seq!["d[].time"@, "d[].open"@, "d[].high"@, "d[].low"@, "d[].close"@, "d[].volume"@],
            ),
        )
    } else if name == "dnse"@ {
        Some(
            (
                "https://api.dnse.com.vn/chart-api/v2/ohlcs/{kind}?from={from}&to={to}&symbol={stock}&resolution={res}"@,
                seq!["t[]"@, "o[]"@, "h[]"@, "l[]"@, "c[]"@, "v[]"@],
            ),
        )
    } else if name == "dragon"@ {
        Some(
            (
                "https://godragon.vdsc.com.vn/IdragonMarketDataServer/trading-view/rest/history?symbol={stock}&resolution={res}&from={from}&to={to}&countback={limit}"@,
                seq!["t[]"@, "o[]"@, "h[]"@, "l[]"@, "c[]"@, "v[]"@],
            ),
        )
    } else if name == "binance"@ {
        Some(
            (
                "https://api.binance.com/api/v3/klines?startTime={from}&endTime={to}&symbol={stock}&interval={res}&limit={limit}"@,
                seq!["[].0"@, "[].1"@, "[].2"@, "[].3"@, "[].4"@, "[].5"@],
            ),
        )
    } else if name == "msn"@ {
        Some(
            (
                "https://assets.msn.com/service/MSNFinance/Quotes/Chart?apikey=0Q_697_8_Z_S_1_1&ocid=finance-utils-peregrine&symbol={stock}&interval={res}&period={limit}"@,
                seq!["series.dataPoints[].0"@, "series.dataPoints[].1"@, "series.dataPoints[].2"@, "series.dataPoints[].3"@, "series.dataPoints[].4"@, "series.dataPoints[].5"@],
            ),
        )
    } else if name == "yahoo"@ {
        Some(
            (
                "https://query1.finance.yahoo.com/v8/finance/chart/{stock}?interval={res}&period1={from}&period2={to}"@,
                seq!["chart.result.timestamp[]"@, "chart.result.indicators.quote.open[]"@, "chart.result.indicators.quote.high[]"@, "chart.result.indicators.quote.low[]"@, "chart.result.indicators.quote.close[]"@, "chart.result.indicators.quote.volume[]"@],
            ),
        )
    } else if name == "simplefx"@ {
        Some(
            (
                "https://candles.simplefx.com/api/v3/candles?symbol={stock}&cPeriod={res}&timeFrom={from}&timeTo={to}"@,
                seq!["data[].time"@, "data[].open"@, "data[].high"@, "data[].low"@, "data[].close"@, "data[].size"@],
            ),
        )
    } else if name == "findaily"@ {
        Some(
            (
                "https://findaily.vn/api/investing/v1/ohcl/candles/{provider}/{stock}?resolution={res}&from={from}&to={to}&limit={limit}"@,
                seq!["ohcl[].t"@, "ohcl[].o"@, "ohcl[].h"@, "ohcl[].l"@, "ohcl[].c"@, "ohcl[].v"@],
            ),
        )
    } else {
        None
    }
}

fn profile(
    url_template: &'static str,
    t: &'static str,
    o: &'static str,
    h: &'static str,
    l: &'static str,
    c: &'static str,
    v: &'static str,
) -> (r: Profile)
    ensures
        profile_view(r) == (url_template@, seq![t@, o@, h@, l@, c@, v@]),
{
    let mut paths: Vec<&'static str> = Vec::new();
    paths.push(t);
    paths.push(o);
    paths.push(h);
    paths.push(l);
    paths.push(c);
    paths.push(v);
    let r = Profile { url_template, paths };
    assert(profile_view(r).1 =~= seq![t@, o@, h@, l@, c@, v@]);
    r
}

/// The profile of a provider.
pub fn find_profile(name: &str) -> (r: Option<Profile>)
    ensures
        r is Some <==> profile_of(name@) is Some,
        r matches Some(p) ==> Some(profile_view(p)) == profile_of(name@),
{
    if same(name, "ssi") {
        Some(
            profile(
                "https://iboard-api.ssi.com.vn/statistics/charts/history?from={from}&to={to}&symbol={stock}&resolution={res}",
                "data.t[]", "data.o[]", "data.h[]", "data.l[]", "data.c[]", "data.v[]",
            ),
        )
    } else if same(name, "vix") {
        Some(
            profile(
                " https://xpower.vixs.vn/tvchart/history?resolution={res}&symbol={stock}&from={from}&to={to}",
                "d[].time", "d[].open", "d[].high", "d[].low", "d[].close", "d[].volume",
            ),
        )
    } else if same(name, "dnse") {
        Some(
            profile(
                "https://api.dnse.com.vn/chart-api/v2/ohlcs/{kind}?from={from}&to={to}&symbol={stock}&resolution={res}",
                "t[]", "o[]", "h[]", "l[]", "c[]", "v[]",
            ),
        )
    } else if same(name, "dragon") {
        Some(
            profile(
                "https://godragon.vdsc.com.vn/IdragonMarketDataServer/trading-view/rest/history?symbol={stock}&resolution={res}&from={from}&to={to}&countback={limit}",
                "t[]", "o[]", "h[]", "l[]", "c[]", "v[]",
            ),
        )
    } else if same(name, "binance") {
        Some(
            profile(
                "https://api.binance.com/api/v3/klines?startTime={from}&endTime={to}&symbol={stock}&interval={res}&limit={limit}",
                "[].0", "[].1", "[].2", "[].3", "[].4", "[].5",
            ),
        )
    } else if same(name, "msn") {
        Some(
            profile(
                "https://assets.msn.com/service/MSNFinance/Quotes/Chart?apikey=0Q_697_8_Z_S_1_1&ocid=finance-utils-peregrine&symbol={stock}&interval={res}&period={limit}",
                "series.dataPoints[].0", "series.dataPoints[].1", "series.dataPoints[].2", "series.dataPoints[].3", "series.dataPoints[].4", "series.dataPoints[].5",
            ),
        )
    } else if same(name, "yahoo") {
        Some(
            profile(
                "https://query1.finance.yahoo.com/v8/finance/chart/{stock}?interval={res}&period1={from}&period2={to}",
                "chart.result.timestamp[]", "chart.result.indicators.quote.open[]", "chart.result.indicators.quote.high[]", "chart.result.indicators.quote.low[]", "chart.result.indicators.quote.close[]", "chart.result.indicators.quote.volume[]",
            ),
        )
    } else if same(name, "simplefx") {
        Some(
            profile(
                "https://candles.simplefx.com/api/v3/candles?symbol={stock}&cPeriod={res}&timeFrom={from}&timeTo={to}",
                "data[].time", "data[].open", "data[].high", "data[].low", "data[].close", "data[].size",
            ),
        )
    } else if same(name, "findaily") {
        Some(
            profile(
                "https://findaily.vn/api/investing/v1/ohcl/candles/{provider}/{stock}?resolution={res}&from={from}&to={to}&limit={limit}",
                "ohcl[].t", "ohcl[].o", "ohcl[].h", "ohcl[].l", "ohcl[].c", "ohcl[].v",
            ),
        )
    } else {
        None
    }
}

/// Whether a symbol is an index.
pub open spec fn is_index(stock: Seq<char>) -> bool {
    stock == "VNINDEX"@ || stock == "HNXINDEX"@ || stock == "VN30"@
}

/// Whether a provider counts time in milliseconds.
pub open spec fn in_millis(profile_name: Seq<char>) -> bool {
    profile_name == "binance"@
}

/// A time as a provider counts it.
pub open spec fn provider_time(profile_name: Seq<char>, t: int) -> int {
    if in_millis(profile_name) {
        t * 1000
    } else {
        t
    }
}

/// A template with its places filled in.
pub open spec fn filled_url(
    template: Seq<char>,
    stock: Seq<char>,
    provider: Seq<char>,
    resolution: Seq<char>,
    from: int,
    to: int,
    limit: nat,
) -> Seq<char> {
    let kind = if is_index(stock) {
        "index"@
    } else {
        "stock"@
    };
    let a = replaced(template, "{kind}"@, kind);
    let b = replaced(a, "{stock}"@, stock);
    let c = replaced(b, "{provider}"@, provider);
    let d = replaced(c, "{res}"@, resolution);
    let e = replaced(d, "{from}"@, signed_decimal(from));
    let f = replaced(e, "{to}"@, signed_decimal(to));
    replaced(f, "{limit}"@, decimal(limit))
}

/// Why candles cannot be asked for.
#[derive(Clone, Copy, Debug, PartialEq, Eq, Structural)]
pub enum QueryError {
    NoProvider,
    UnknownProvider,
    LimitTooLarge,
    InvalidTemplate,
}

impl QueryError {
    /// What the error says.
    pub open spec fn text(self) -> Seq<char> {
        match self {
            QueryError::NoProvider => "Provider not specified"@,
            QueryError::UnknownProvider => "Provider not found"@,
            QueryError::LimitTooLarge => "`limit` mustn't be larger than 1000"@,
            QueryError::InvalidTemplate => "Invalid URL template"@,
        }
    }

    /// What the error says.
    pub fn message(&self) -> (s: &'static str)
        ensures
            s@ == self.text(),
    {
        match self {
            QueryError::NoProvider => "Provider not specified",
            QueryError::UnknownProvider => "Provider not found",
            QueryError::LimitTooLarge => "`limit` mustn't be larger than 1000",
            QueryError::InvalidTemplate => "Invalid URL template",
        }
    }
}

/// The address that a provider is asked at.
pub open spec fn query_url(
    profile_name: Seq<char>,
    stock: Seq<char>,
    provider: Seq<char>,
    resolution: Seq<char>,
    from: int,
    to: int,
    limit: nat,
) -> Seq<char> {
    filled_url(
        (profile_of(profile_name)->0).0,
        stock,
        provider,
        resolution,
        provider_time(profile_name, from),
        provider_time(profile_name, to),
        limit,
    )
}

/// The address that a provider is asked at for the candles of a symbol.
pub fn candle_url(
    profile_name: &str,
    stock: &str,
    provider: &str,
    resolution: &str,
    from: i64,
    to: i64,
    limit: usize,
) -> (r: Result<String, QueryError>)
    requires
        i64::MIN <= from * 1000 <= i64::MAX,
        i64::MIN <= to * 1000 <= i64::MAX,
    ensures
        ({
            let url = query_url(
                profile_name@,
                stock@,
                provider@,
                resolution@,
                from as int,
                to as int,
                limit as nat,
            );
            match r {
                Ok(s) => profile_of(profile_name@) is Some && limit <= MAX_LIMIT && url.len() > 0 && s@ == url,
                Err(QueryError::UnknownProvider) => profile_of(profile_name@) is None,
                Err(QueryError::LimitTooLarge) => profile_of(profile_name@) is Some && limit > MAX_LIMIT,
                Err(QueryError::InvalidTemplate) => profile_of(profile_name@) is Some && limit <= MAX_LIMIT && url.len()
                    == 0,
                Err(QueryError::NoProvider) => false,
            }
        }),
{
    let profile = match find_profile(profile_name) {
        Some(p) => p,
        None => {
            return Err(QueryError::UnknownProvider);
        },
    };
    if limit > MAX_LIMIT {
        return Err(QueryError::LimitTooLarge);
    }
    let kind = if same(stock, "VNINDEX") || same(stock, "HNXINDEX") || same(stock, "VN30") {
        "index"
    } else {
        "stock"
    };
    let millis = same(profile_name, "binance");
    let first: i64 = if millis { from * 1000 } else { from };
    let last: i64 = if millis { to * 1000 } else { to };
    proof {
        reveal_strlit("{kind}");
        reveal_strlit("{stock}");
        reveal_strlit("{provider}");
        reveal_strlit("{res}");
        reveal_strlit("{from}");
        reveal_strlit("{to}");
        reveal_strlit("{limit}");
        reveal_strlit("");
    }
    let a = replace_all(profile.url_template, "{kind}", kind);
    let b = replace_all(&a, "{stock}", stock);
    let c = replace_all(&b, "{provider}", provider);
    let d = replace_all(&c, "{res}", resolution);
    let e = replace_all(&d, "{from}", &signed_decimal_text(first));
    let f = replace_all(&e, "{to}", &signed_decimal_text(last));
    let url = replace_all(&f, "{limit}", &decimal_text(limit as u64));
    if same(&url, "") {
        return Err(QueryError::InvalidTemplate);
    }
    proof {
        if url@.len() == 0 {
            assert(url@ =~= ""@);
        }
    }
    Ok(url)
}

/// Who is asked, where the profile passes the request on: the provider given,
/// else the one that the profile is mapped to, else the profile itself.
pub open spec fn resolved(given: Option<&str>, mapped: Option<Seq<char>>, profile_name: Seq<char>) -> Seq<char> {
    match given {
        Some(p) => p@,
        None => match mapped {
            Some(m) => m,
            None => profile_name,
        },
    }
}

/// What a text maps each name to: the names and strings of its JSON object, or
/// nothing where there is no text or it is no such object.
pub open spec fn text_mapping(text: Option<&str>) -> Map<Seq<char>, Seq<char>> {
    match text {
        Some(s) => match parsed_strings(s@) {
            Some(m) => m,
            None => Map::empty(),
        },
        None => Map::empty(),
    }
}

/// The mapping that a text gives, as pairs of which no two have the same name.
pub fn mapping_of(text: Option<&str>) -> (r: Vec<(String, String)>)
    ensures
        last_values(r@) == text_mapping(text),
        distinct_names(r@),
{
    if let Some(s) = text {
        if let Ok(pairs) = parse_strings(s) {
            return pairs;
        }
    }
    Vec::new()
}

proof fn lemma_named_values(pairs: Seq<(String, String)>, name: Seq<char>)
    requires
        distinct_names(pairs),
    ensures
        forall|i: int|
            0 <= i < pairs.len() && (#[trigger] pairs[i]).0@ == name ==> last_values(pairs).contains_key(name)
                && last_values(pairs)[name] == pairs[i].1@,
        last_values(pairs).contains_key(name) ==> exists|i: int|
            0 <= i < pairs.len() && (#[trigger] pairs[i]).0@ == name,
    decreases pairs.len(),
{
    if pairs.len() > 0 {
        let rest = pairs.drop_last();
        assert forall|i: int, j: int| 0 <= i < j < rest.len() implies (#[trigger] rest[i]).0@ != (
        #[trigger] rest[j]).0@ by {
            assert(pairs[i].0@ != pairs[j].0@);
        }
        lemma_named_values(rest, name);
        let last = pairs.len() - 1;
        assert forall|i: int| 0 <= i < pairs.len() && (#[trigger] pairs[i]).0@ == name implies last_values(
            pairs,
        ).contains_key(name) && last_values(pairs)[name] == pairs[i].1@ by {
            if i < last {
                assert(rest[i] == pairs[i]);
                assert(pairs[i].0@ != pairs[last].0@);
            }
        }
        if last_values(pairs).contains_key(name) {
            if pairs[last].0@ != name {
                let i = choose|i: int| 0 <= i < rest.len() && (#[trigger] rest[i]).0@ == name;
                assert(pairs[i].0@ == name);
            }
        }
    }
}

proof fn lemma_first_named(pairs: Seq<(String, String)>, name: Seq<char>)
    ensures
        match mapped_to(pairs, name) {
            Some(v) => exists|i: int| 0 <= i < pairs.len() && (#[trigger] pairs[i]).0@ == name && pairs[i].1@ == v,
            None => forall|i: int| 0 <= i < pairs.len() ==> (#[trigger] pairs[i]).0@ != name,
        },
    decreases pairs.len(),
{
    if pairs.len() > 0 && pairs[0].0@ != name {
        let rest = pairs.skip(1);
        lemma_first_named(rest, name);
        assert forall|i: int| 0 < i < pairs.len() implies #[trigger] pairs[i] == rest[i - 1] by {}
        if let Some(v) = mapped_to(rest, name) {
            let i = choose|i: int| 0 <= i < rest.len() && (#[trigger] rest[i]).0@ == name && rest[i].1@ == v;
            assert(pairs[i + 1].0@ == name && pairs[i + 1].1@ == v);
        }
    }
}

/// A name is mapped to what the text says of it, and to nothing where the text
/// does not name it.
pub proof fn names_are_mapped_as_written(mapping: Seq<(String, String)>, text: Option<&str>, name: Seq<char>)
    requires
        last_values(mapping) == text_mapping(text),
        distinct_names(mapping),
    ensures
        mapped_to(mapping, name) == (if text_mapping(text).contains_key(name) {
            Some(text_mapping(text)[name])
        } else {
            None
        }),
{
    lemma_named_values(mapping, name);
    lemma_first_named(mapping, name);
}

/// What a name is mapped to by the first pair that has it.
pub open spec fn mapped_to(mapping: Seq<(String, String)>, name: Seq<char>) -> Option<Seq<char>>
    decreases mapping.len(),
{
    if mapping.len() == 0 {
        None
    } else if mapping[0].0@ == name {
        Some(mapping[0].1@)
    } else {
        mapped_to(mapping.skip(1), name)
    }
}

/// Who is asked, where the profile passes the request on.
pub fn resolve_provider(given: Option<&str>, mapping: &Vec<(String, String)>, profile_name: &str) -> (r: String)
    ensures
        r@ == resolved(given, mapped_to(mapping@, profile_name@), profile_name@),
{
    if let Some(p) = given {
        return p.to_owned();
    }
    let mut i: usize = 0;
    assert(mapping@.skip(0) =~= mapping@);
    while i < mapping.len()
        invariant
            i <= mapping@.len(),
            given is None,
            mapped_to(mapping@, profile_name@) == mapped_to(mapping@.skip(i as int), profile_name@),
        decreases mapping@.len() - i,
    {
        assert(mapping@.skip(i as int).skip(1) =~= mapping@.skip(i + 1));
        if same(&mapping[i].0, profile_name) {
            return mapping[i].1.as_str().to_owned();
        }
        i += 1;
    }
    profile_name.to_owned()
}

/// A time in a provider's answer.
#[derive(Debug)]
pub enum Scalar {
    Integer(i64),
    Text(String),
    Other,
}

impl Scalar {
    /// Reads a time of a provider's answer.
    pub fn of(v: &serde_json::Value) -> (r: Scalar)
        ensures
            match json_string(*v) {
                Some(text) => r matches Scalar::Text(s) && s@ == text,
                None => r == (match json_integer(*v) {
                    Some(n) => Scalar::Integer(n),
                    None => Scalar::Other,
                }),
            },
    {
        match string_of(v) {
            Some(s) => Scalar::Text(s.to_owned()),
            None => match integer_of(v) {
                Some(n) => Scalar::Integer(n),
                None => Scalar::Other,
            },
        }
    }

    /// The number that it is or writes; nothing else counts.
    pub open spec fn lossy(self) -> int {
        match self {
            Scalar::Integer(n) => n as int,
            Scalar::Text(s) => match whole_number(s@) {
                Some(n) => if i64::MIN <= n <= i64::MAX {
                    n
                } else {
                    0
                },
                None => 0,
            },
            Scalar::Other => 0,
        }
    }

    /// The number that it is or writes, or 0.
    pub fn as_i64_lossy(&self) -> (r: i64)
        ensures
            r == self.lossy(),
    {
        match self {
            Scalar::Integer(n) => *n,
            Scalar::Text(s) => match parse_i64(s) {
                Some(n) => n,
                None => 0,
            },
            Scalar::Other => 0,
        }
    }

    /// The time in seconds, from a provider.
    pub open spec fn seconds(self, profile_name: Seq<char>) -> int {
        if in_millis(profile_name) {
            match self {
                Scalar::Integer(n) => if n >= 0 {
                    n as int / 1000
                } else {
                    -((-n) / 1000)
                },
                _ => 0,
            }
        } else {
            self.lossy()
        }
    }
}

fn seconds_of(s: &Scalar, millis: bool) -> (r: i64)
    ensures
        forall|p: Seq<char>| in_millis(p) == millis ==> r == #[trigger] s.seconds(p),
{
    if millis {
        match s {
            Scalar::Integer(n) => {
                let n = *n;
                if n >= 0 {
                    (n as u64 / 1000) as i64
                } else {
                    let size: u64 = if n == i64::MIN { 0x8000_0000_0000_0000 } else { (-n) as u64 };
                    -((size / 1000) as i64)
                }
            },
            _ => 0,
        }
    } else {
        s.as_i64_lossy()
    }
}

/// The columns of a provider's answer.
#[derive(Debug)]
pub struct Columns {
    pub t: Vec<Scalar>,
    pub o: Vec<Num>,
    pub h: Vec<Num>,
    pub l: Vec<Num>,
    pub c: Vec<Num>,
    pub v: Vec<Num>,
}

impl Columns {
    /// How many candles the columns make: as many as the shortest has, and no
    /// more than the limit where there is one.
    pub open spec fn rows(self, limit: nat) -> int {
        let a = crate::blocks::lesser_of(self.t@.len() as int, self.o@.len() as int);
        let b = crate::blocks::lesser_of(self.h@.len() as int, self.l@.len() as int);
        let c = crate::blocks::lesser_of(self.c@.len() as int, self.v@.len() as int);
        let all = crate::blocks::lesser_of(crate::blocks::lesser_of(a, b), c);
        if limit > 0 {
            crate::blocks::lesser_of(all, limit as int)
        } else {
            all
        }
    }

    /// The candle of a row.
    pub open spec fn row(self, profile_name: Seq<char>, i: int) -> CandleStick {
        CandleStick {
            t: self.t@[i].seconds(profile_name) as i64,
            o: self.o@[i],
            h: self.h@[i],
            l: self.l@[i],
            c: self.c@[i],
            v: self.v@[i],
        }
    }

    /// The candles that the columns make.
    pub fn candles(&self, profile_name: &str, limit: usize) -> (r: Vec<CandleStick>)
        ensures
            r@ == Seq::new(self.rows(limit as nat) as nat, |i: int| self.row(profile_name@, i)),
    {
        let millis = same(profile_name, "binance");
        let mut out: Vec<CandleStick> = Vec::new();
        let mut i: usize = 0;
        while i < self.t.len() && i < self.o.len() && i < self.h.len() && i < self.l.len() && i < self.c.len() && i
            < self.v.len() && (limit == 0 || i < limit)
            invariant
                i <= self.rows(limit as nat),
                millis == in_millis(profile_name@),
                out@ == Seq::new(i as nat, |k: int| self.row(profile_name@, k)),
            ensures
                i == self.rows(limit as nat),
                out@ == Seq::new(i as nat, |k: int| self.row(profile_name@, k)),
            decreases self.t@.len() - i,
        {
            let t = seconds_of(&self.t[i], millis);
            assert(t == self.t@[i as int].seconds(profile_name@));
            out.push(
                CandleStick {
                    t,
                    o: self.o[i],
                    h: self.h[i],
                    l: self.l[i],
                    c: self.c[i],
                    v: self.v[i],
                },
            );
            i += 1;
            assert(out@ =~= Seq::new(i as nat, |k: int| self.row(profile_name@, k)));
        }
        out
    }
}

} // verus!
