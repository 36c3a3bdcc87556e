//! The general guarantees of the pipeline, each stated over the spec
//! functions that the executable functions are proved against.

use vstd::prelude::*;

use crate::json::spec_is_decimal;
use crate::pipeline::{
    spec_execution, spec_normalize_from, spec_normalize_markets, spec_tally, ErrorModel,
};
use crate::schema::{
    spec_parse_event, spec_parse_price_array, spec_ser_response, MarketModel, RawMarketModel,
};

verus! {

/// A market whose price array parses, is non-empty, and opens with a
/// decimal price.
pub open spec fn market_well_formed(m: RawMarketModel) -> bool {
    match spec_parse_price_array(m.outcome_prices) {
        Some(p) => p.len() > 0 && spec_is_decimal(p[0]),
        None => false,
    }
}

/// The first price of a market whose price array parses.
pub open spec fn first_price(m: RawMarketModel) -> Seq<u8> {
    match spec_parse_price_array(m.outcome_prices) {
        Some(p) => p[0],
        None => Seq::empty(),
    }
}

proof fn lemma_normalize_from_complete(ms: Seq<RawMarketModel>, k: int)
    requires
        0 <= k <= ms.len(),
        forall|i: int| k <= i < ms.len() ==> market_well_formed(#[trigger] ms[i]),
    ensures
        (spec_normalize_from(ms, k) matches Ok(out) && out.len() == ms.len() - k && (forall|i: int|
            0 <= i < out.len() ==> out[i] == MarketModel {
                yes_price: first_price(ms[k + i]),
                closed: ms[k + i].closed,
            })),
    decreases ms.len() - k,
{
    if k < ms.len() {
        lemma_normalize_from_complete(ms, k + 1);
    }
}

/// Normalizing any event whose markets all carry a non-empty price array
/// of decimals succeeds, with one entry per market: each entry holds that
/// market's first outcome price and its closed status.
pub proof fn lemma_complete_event_normalizes(ms: Seq<RawMarketModel>)
    requires
        forall|i: int| 0 <= i < ms.len() ==> market_well_formed(#[trigger] ms[i]),
    ensures
        (spec_normalize_markets(ms) matches Ok(out) && out.len() == ms.len() && (forall|i: int|
            0 <= i < ms.len() ==> out[i] == MarketModel {
                yes_price: first_price(ms[i]),
                closed: ms[i].closed,
            })),
{
    lemma_normalize_from_complete(ms, 0);
}

proof fn lemma_normalize_from_len(ms: Seq<RawMarketModel>, k: int)
    requires
        0 <= k <= ms.len(),
    ensures
        (spec_normalize_from(ms, k) matches Ok(out) ==> out.len() == ms.len() - k),
    decreases ms.len() - k,
{
    if k < ms.len() {
        lemma_normalize_from_len(ms, k + 1);
    }
}

/// An event without markets is always a terminal error, and a success is
/// never an empty payload: a successful execution serializes exactly one
/// normalized entry per market of a non-empty event.
pub proof fn lemma_no_empty_success(ok: bool, body: Seq<u8>)
    ensures
        (spec_parse_event(body) matches Some(ev) && ev.markets.len() == 0) ==> spec_execution(
            true,
            body,
        ) == Err::<Seq<u8>, ErrorModel>(ErrorModel::NoMarkets),
        (spec_execution(ok, body) matches Ok(out) ==> ({
            &&& spec_parse_event(body) matches Some(ev)
            &&& ev.markets.len() > 0
            &&& spec_normalize_markets(ev.markets) matches Ok(ms)
            &&& ms.len() == ev.markets.len()
            &&& out == spec_ser_response(ms)
        })),
{
    if let Some(ev) = spec_parse_event(body) {
        lemma_normalize_from_len(ev.markets, 0);
    }
}

proof fn lemma_empty_prices_fail_from(ms: Seq<RawMarketModel>, j: int, k: int)
    requires
        0 <= j <= k < ms.len(),
        (spec_parse_price_array(ms[k].outcome_prices) matches Some(p) && p.len() == 0),
    ensures
        spec_normalize_from(ms, j) is Err,
    decreases ms.len() - j,
{
    if j < k {
        if spec_normalize_from(ms, j + 1) is Err {
        }
        lemma_empty_prices_fail_from(ms, j + 1, k);
    }
}

/// Under the strict policy one market with an empty price array fails the
/// whole normalization, wherever it stands.
pub proof fn lemma_empty_prices_fail(ms: Seq<RawMarketModel>, k: int)
    requires
        0 <= k < ms.len(),
        (spec_parse_price_array(ms[k].outcome_prices) matches Some(p) && p.len() == 0),
    ensures
        spec_normalize_markets(ms) is Err,
{
    lemma_empty_prices_fail_from(ms, 0, k);
}

/// A failed upstream fetch is a terminal error whatever the body holds:
/// no byte of the body can influence the outcome.
pub proof fn lemma_http_failure(body: Seq<u8>)
    ensures
        spec_execution(false, body) == Err::<Seq<u8>, ErrorModel>(ErrorModel::HttpNotOk),
{
}

/// Any number of reveals other than one is a terminal error naming that
/// number, whatever the reveals hold.
pub proof fn lemma_tally_cardinality(reveals: Seq<Seq<u8>>)
    requires
        reveals.len() != 1,
    ensures
        spec_tally(reveals) == Err::<Seq<u8>, ErrorModel>(
            ErrorModel::WrongRevealCount { count: reveals.len() as int },
        ),
{
}

} // verus!
