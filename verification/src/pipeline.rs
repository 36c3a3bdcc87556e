//! The two phases of the oracle pipeline.
//!
//! The execution phase turns an upstream HTTP answer into a serialized
//! normalized response: it rejects a failed fetch outright, parses the
//! event schema, demands at least one market, and extracts the first
//! outcome price of every market under the strict policy — any market
//! whose price array is empty or malformed fails the whole operation.
//! The tally phase demands exactly one reveal, validates it against the
//! normalized schema, and re-serializes it unchanged.
//!
//! The host runtime performs the HTTP call and the reveal collection;
//! everything here is a pure function from the bytes it hands over.

use vstd::prelude::*;

use crate::json::{is_decimal, spec_is_decimal};
use crate::schema::{
    markets_view, parse_event, parse_input, parse_price_array, parse_response, push_all,
    raw_markets_view, serialize_response, spec_parse_event, spec_parse_input,
    spec_parse_price_array, spec_parse_response, spec_ser_response, strings_view, Market,
    MarketModel, PolyMarketEvent, PolyMarketMarket, RawEventModel, RawMarketModel, Response,
};
use crate::tokens::{lit_url_prefix, url_prefix};

verus! {

// ---------------------------------------------------------------------------
// Errors
// ---------------------------------------------------------------------------

/// Why an invocation ended with a terminal error instead of a result.
#[derive(Debug)]
pub enum PipelineError {
    /// The execution-phase input is not `{"event_slug": string}`.
    InputFormat,
    /// The upstream HTTP status was not a success.
    HttpNotOk,
    /// The response body does not follow the event schema.
    EventFormat,
    /// The event carries no markets at all.
    NoMarkets,
    /// A market's `outcomePrices` value is not a JSON array of strings.
    OutcomePricesFormat { market: Vec<u8> },
    /// A market's `outcomePrices` array is empty.
    NoOutcomePrices { market: Vec<u8> },
    /// A market's first outcome price is not a decimal number.
    InvalidPrice { market: Vec<u8> },
    /// The tally phase got a number of reveals other than one.
    WrongRevealCount { count: usize },
    /// The sole reveal does not follow the normalized response schema.
    RevealFormat,
}

#[verifier::ext_equal]
pub enum ErrorModel {
    InputFormat,
    HttpNotOk,
    EventFormat,
    NoMarkets,
    OutcomePricesFormat { market: Seq<u8> },
    NoOutcomePrices { market: Seq<u8> },
    InvalidPrice { market: Seq<u8> },
    WrongRevealCount { count: int },
    RevealFormat,
}

impl View for PipelineError {
    type V = ErrorModel;

    open spec fn view(&self) -> ErrorModel {
        match self {
            PipelineError::InputFormat => ErrorModel::InputFormat,
            PipelineError::HttpNotOk => ErrorModel::HttpNotOk,
            PipelineError::EventFormat => ErrorModel::EventFormat,
            PipelineError::NoMarkets => ErrorModel::NoMarkets,
            PipelineError::OutcomePricesFormat { market } => ErrorModel::OutcomePricesFormat {
                market: market@,
            },
            PipelineError::NoOutcomePrices { market } => ErrorModel::NoOutcomePrices {
                market: market@,
            },
            PipelineError::InvalidPrice { market } => ErrorModel::InvalidPrice { market: market@ },
            PipelineError::WrongRevealCount { count } => ErrorModel::WrongRevealCount {
                count: *count as int,
            },
            PipelineError::RevealFormat => ErrorModel::RevealFormat,
        }
    }
}

// ---------------------------------------------------------------------------
// Normalization (strict policy)
// ---------------------------------------------------------------------------

/// Normalize the markets from position `k` on. Under the strict policy
/// the first offending market decides the error of the whole operation.
pub open spec fn spec_normalize_from(ms: Seq<RawMarketModel>, k: int) -> Result<
    Seq<MarketModel>,
    ErrorModel,
>
    decreases ms.len() - k,
    when 0 <= k
{
    if k >= ms.len() {
        Ok(Seq::empty())
    } else {
        let m = ms[k];
        match spec_parse_price_array(m.outcome_prices) {
            None => Err(ErrorModel::OutcomePricesFormat { market: m.group_item_title }),
            Some(prices) => if prices.len() == 0 {
                Err(ErrorModel::NoOutcomePrices { market: m.group_item_title })
            } else if !spec_is_decimal(prices[0]) {
                Err(ErrorModel::InvalidPrice { market: m.group_item_title })
            } else {
                match spec_normalize_from(ms, k + 1) {
                    Err(e) => Err(e),
                    Ok(rest) => Ok(
                        seq![MarketModel { yes_price: prices[0], closed: m.closed }] + rest,
                    ),
                }
            },
        }
    }
}

/// Normalize a whole market sequence.
pub open spec fn spec_normalize_markets(ms: Seq<RawMarketModel>) -> Result<
    Seq<MarketModel>,
    ErrorModel,
> {
    spec_normalize_from(ms, 0)
}

fn normalize_from(ms: &Vec<PolyMarketMarket>, k: usize) -> (r: Result<Vec<Market>, PipelineError>)
    requires
        k <= ms@.len(),
    ensures
        match r {
            Ok(v) => spec_normalize_from(raw_markets_view(ms@), k as int) == Ok::<
                Seq<MarketModel>,
                ErrorModel,
            >(markets_view(v@)),
            Err(e) => spec_normalize_from(raw_markets_view(ms@), k as int) == Err::<
                Seq<MarketModel>,
                ErrorModel,
            >(e@),
        },
    decreases ms@.len() - k,
{
    if k == ms.len() {
        let v: Vec<Market> = Vec::new();
        proof {
            assert(markets_view(v@) =~= Seq::<MarketModel>::empty());
        }
        return Ok(v);
    }
    let m = &ms[k];
    match parse_price_array(m.outcome_prices.as_slice()) {
        None => Err(
            PipelineError::OutcomePricesFormat {
                market: vstd::slice::slice_to_vec(m.group_item_title.as_slice()),
            },
        ),
        Some(prices) => {
            if prices.len() == 0 {
                return Err(
                    PipelineError::NoOutcomePrices {
                        market: vstd::slice::slice_to_vec(m.group_item_title.as_slice()),
                    },
                );
            }
            if !is_decimal(prices[0].as_slice()) {
                return Err(
                    PipelineError::InvalidPrice {
                        market: vstd::slice::slice_to_vec(m.group_item_title.as_slice()),
                    },
                );
            }
            match normalize_from(ms, k + 1) {
                Err(e) => Err(e),
                Ok(rest) => {
                    let mut prices = prices;
                    let first = prices.remove(0);
                    let ghost r0 = rest@;
                    let ghost fm = first@;
                    let mut v = rest;
                    v.insert(0, Market { yes_price: first, closed: m.closed });
                    proof {
                        assert(markets_view(v@) =~= seq![
                            MarketModel { yes_price: fm, closed: m@.closed },
                        ] + markets_view(r0));
                    }
                    Ok(v)
                },
            }
        },
    }
}

/// Normalize a whole market list under the strict policy.
pub fn normalize_markets(ms: &Vec<PolyMarketMarket>) -> (r: Result<Vec<Market>, PipelineError>)
    ensures
        match r {
            Ok(v) => spec_normalize_markets(raw_markets_view(ms@)) == Ok::<
                Seq<MarketModel>,
                ErrorModel,
            >(markets_view(v@)),
            Err(e) => spec_normalize_markets(raw_markets_view(ms@)) == Err::<
                Seq<MarketModel>,
                ErrorModel,
            >(e@),
        },
{
    normalize_from(ms, 0)
}

// ---------------------------------------------------------------------------
// The execution phase
// ---------------------------------------------------------------------------

/// What the execution phase makes of one upstream HTTP answer: the
/// serialized normalized response, or the terminal error.
pub open spec fn spec_execution(ok: bool, body: Seq<u8>) -> Result<Seq<u8>, ErrorModel> {
    if !ok {
        Err(ErrorModel::HttpNotOk)
    } else {
        match spec_parse_event(body) {
            None => Err(ErrorModel::EventFormat),
            Some(ev) => if ev.markets.len() == 0 {
                Err(ErrorModel::NoMarkets)
            } else {
                match spec_normalize_markets(ev.markets) {
                    Err(e) => Err(e),
                    Ok(ms) => Ok(spec_ser_response(ms)),
                }
            },
        }
    }
}

/// Turn one upstream HTTP answer into the serialized normalized response.
/// `response_ok` says whether the upstream status was a success; `body`
/// is the response body as handed over by the host transport.
pub fn execution_result(response_ok: bool, body: &[u8]) -> (r: Result<Vec<u8>, PipelineError>)
    ensures
        match r {
            Ok(out) => spec_execution(response_ok, body@) == Ok::<Seq<u8>, ErrorModel>(out@),
            Err(e) => spec_execution(response_ok, body@) == Err::<Seq<u8>, ErrorModel>(e@),
        },
{
    if !response_ok {
        return Err(PipelineError::HttpNotOk);
    }
    match parse_event(body) {
        None => Err(PipelineError::EventFormat),
        Some(ev) => {
            if ev.markets.len() == 0 {
                return Err(PipelineError::NoMarkets);
            }
            match normalize_markets(&ev.markets) {
                Err(e) => Err(e),
                Ok(ms) => Ok(serialize_response(&Response { markets: ms })),
            }
        },
    }
}

// ---------------------------------------------------------------------------
// Request construction
// ---------------------------------------------------------------------------

/// The URL the execution phase must fetch for a given input.
pub open spec fn spec_build_request(input: Seq<u8>) -> Result<Seq<u8>, ErrorModel> {
    match spec_parse_input(input) {
        None => Err(ErrorModel::InputFormat),
        Some(slug) => Ok(url_prefix() + slug),
    }
}

/// Read the event slug out of the process input and build the upstream
/// request URL from it.
pub fn build_request_url(input: &[u8]) -> (r: Result<Vec<u8>, PipelineError>)
    ensures
        match r {
            Ok(url) => spec_build_request(input@) == Ok::<Seq<u8>, ErrorModel>(url@),
            Err(e) => spec_build_request(input@) == Err::<Seq<u8>, ErrorModel>(e@),
        },
{
    match parse_input(input) {
        None => Err(PipelineError::InputFormat),
        Some(slug) => {
            let mut url: Vec<u8> = Vec::new();
            push_all(&mut url, lit_url_prefix());
            push_all(&mut url, slug.as_slice());
            proof {
                assert(url@ =~= url_prefix() + slug@);
            }
            Ok(url)
        },
    }
}

// ---------------------------------------------------------------------------
// The tally phase
// ---------------------------------------------------------------------------

/// What the tally phase makes of the collected reveals: the re-serialized
/// sole reveal, or the terminal error.
pub open spec fn spec_tally(reveals: Seq<Seq<u8>>) -> Result<Seq<u8>, ErrorModel> {
    if reveals.len() != 1 {
        Err(ErrorModel::WrongRevealCount { count: reveals.len() as int })
    } else {
        match spec_parse_response(reveals[0]) {
            None => Err(ErrorModel::RevealFormat),
            Some(ms) => Ok(spec_ser_response(ms)),
        }
    }
}

/// Validate the collected reveals: exactly one is demanded, it must
/// follow the normalized schema, and it is forwarded re-serialized.
pub fn tally_result(reveals: &Vec<Vec<u8>>) -> (r: Result<Vec<u8>, PipelineError>)
    ensures
        match r {
            Ok(out) => spec_tally(strings_view(reveals@)) == Ok::<Seq<u8>, ErrorModel>(out@),
            Err(e) => spec_tally(strings_view(reveals@)) == Err::<Seq<u8>, ErrorModel>(e@),
        },
{
    if reveals.len() != 1 {
        return Err(PipelineError::WrongRevealCount { count: reveals.len() });
    }
    match parse_response(reveals[0].as_slice()) {
        None => Err(PipelineError::RevealFormat),
        Some(resp) => Ok(serialize_response(&resp)),
    }
}

} // verus!
