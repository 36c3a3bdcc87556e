//! The two JSON schemas of the pipeline.
//!
//! The upstream event schema is `{"closed": bool, "markets": [...]}` with
//! each market `{"outcomePrices": string, "groupItemTitle": string,
//! "closed": bool}`; the value of `outcomePrices` is itself a JSON array
//! of strings (a double-encoding quirk of the source API). The normalized
//! response schema is `{"markets": [{"yes_price": string, "closed":
//! bool}]}`, where every price is a decimal string.
//!
//! On the event side the grammar is tolerant, as the upstream API's
//! responses demand: an object's known members may come in any order,
//! each at most once, and unknown members of any shape are skipped.
//! Whitespace is allowed between tokens. Event-side strings take the
//! single-character escapes; unicode (`\u`) escapes are accepted only
//! inside skipped values — a string value that the pipeline reads must
//! not use them, a deliberate deviation kept to hold the decoded model
//! simple. The normalized response schema is read strictly: it accepts
//! exactly the compact, escape-free form the serializer here emits.

use vstd::prelude::*;

use crate::json::{
    eq_bytes, expect, expect_byte, lemma_expect_bounds, lemma_expect_byte_bounds,
    lemma_parse_plain_string_bounds, lemma_parse_string_bounds, lemma_skip_ws_bounds,
    parse_plain_string, parse_string, skip_value, skip_ws, spec_expect, spec_expect_byte,
    spec_is_decimal, spec_parse_plain_string, spec_parse_string, spec_skip_value, spec_skip_ws,
    is_decimal, COLON, COMMA, LBRACE, LBRACK, QUOTE, RBRACE, RBRACK,
};
use crate::tokens::{
    key_closed, key_event_slug, key_group_item_title, key_markets, key_outcome_prices, lit_closed,
    lit_false, lit_key_closed, lit_key_event_slug, lit_key_group_item_title, lit_key_markets,
    lit_key_outcome_prices, lit_markets, lit_true, lit_yes_price, tok_closed, tok_false,
    tok_markets, tok_true, tok_yes_price,
};

verus! {

// ---------------------------------------------------------------------------
// Data and their models
// ---------------------------------------------------------------------------

/// One sub-market as the upstream API reports it.
pub struct PolyMarketMarket {
    pub outcome_prices: Vec<u8>,
    pub group_item_title: Vec<u8>,
    pub closed: bool,
}

/// One event as the upstream API reports it.
pub struct PolyMarketEvent {
    pub closed: bool,
    pub markets: Vec<PolyMarketMarket>,
}

/// One normalized sub-market: its first outcome price and its status.
pub struct Market {
    pub yes_price: Vec<u8>,
    pub closed: bool,
}

/// The normalized result: one entry per sub-market.
pub struct Response {
    pub markets: Vec<Market>,
}

#[verifier::ext_equal]
pub struct RawMarketModel {
    pub outcome_prices: Seq<u8>,
    pub group_item_title: Seq<u8>,
    pub closed: bool,
}

#[verifier::ext_equal]
pub struct RawEventModel {
    pub closed: bool,
    pub markets: Seq<RawMarketModel>,
}

#[verifier::ext_equal]
pub struct MarketModel {
    pub yes_price: Seq<u8>,
    pub closed: bool,
}

impl View for PolyMarketMarket {
    type V = RawMarketModel;

    open spec fn view(&self) -> RawMarketModel {
        RawMarketModel {
            outcome_prices: self.outcome_prices@,
            group_item_title: self.group_item_title@,
            closed: self.closed,
        }
    }
}

pub open spec fn raw_markets_view(v: Seq<PolyMarketMarket>) -> Seq<RawMarketModel> {
    v.map_values(|m: PolyMarketMarket| m@)
}

impl View for PolyMarketEvent {
    type V = RawEventModel;

    open spec fn view(&self) -> RawEventModel {
        RawEventModel { closed: self.closed, markets: raw_markets_view(self.markets@) }
    }
}

impl View for Market {
    type V = MarketModel;

    open spec fn view(&self) -> MarketModel {
        MarketModel { yes_price: self.yes_price@, closed: self.closed }
    }
}

pub open spec fn markets_view(v: Seq<Market>) -> Seq<MarketModel> {
    v.map_values(|m: Market| m@)
}

impl View for Response {
    type V = Seq<MarketModel>;

    open spec fn view(&self) -> Seq<MarketModel> {
        markets_view(self.markets@)
    }
}

// ---------------------------------------------------------------------------
// Shared pieces: object members and booleans
// ---------------------------------------------------------------------------

/// A member key followed by a colon.
pub open spec fn spec_member(s: Seq<u8>, i: int, key: Seq<u8>) -> Option<int> {
    match spec_expect(s, i, key) {
        Some(j) => spec_expect_byte(s, j, COLON),
        None => None,
    }
}

pub proof fn lemma_member_bounds(s: Seq<u8>, i: int, key: Seq<u8>)
    requires
        0 <= i <= s.len(),
    ensures
        spec_member(s, i, key) matches Some(j) ==> i < j <= s.len(),
{
    lemma_expect_bounds(s, i, key);
    if let Some(j) = spec_expect(s, i, key) {
        lemma_expect_byte_bounds(s, j, COLON);
        if key.len() == 0 {
            lemma_skip_ws_bounds(s, i);
        }
    }
}

pub fn member(s: &[u8], i: usize, key: &[u8]) -> (r: Option<usize>)
    requires
        i <= s@.len(),
    ensures
        match r {
            Some(j) => spec_member(s@, i as int, key@) == Some(j as int) && i < j <= s@.len(),
            None => spec_member(s@, i as int, key@) is None,
        },
{
    match expect(s, i, key) {
        Some(j) => expect_byte(s, j, COLON),
        None => None,
    }
}

pub open spec fn spec_parse_bool(s: Seq<u8>, i: int) -> Option<(bool, int)> {
    match spec_expect(s, i, tok_true()) {
        Some(j) => Some((true, j)),
        None => match spec_expect(s, i, tok_false()) {
            Some(j) => Some((false, j)),
            None => None,
        },
    }
}

pub proof fn lemma_parse_bool_bounds(s: Seq<u8>, i: int)
    requires
        0 <= i <= s.len(),
    ensures
        spec_parse_bool(s, i) matches Some(p) ==> i < p.1 <= s.len(),
{
    lemma_expect_bounds(s, i, tok_true());
    lemma_expect_bounds(s, i, tok_false());
}

pub fn parse_bool(s: &[u8], i: usize) -> (r: Option<(bool, usize)>)
    requires
        i <= s@.len(),
    ensures
        match r {
            Some(p) => spec_parse_bool(s@, i as int) == Some((p.0, p.1 as int)) && i < p.1
                <= s@.len(),
            None => spec_parse_bool(s@, i as int) is None,
        },
{
    proof {
        lemma_expect_bounds(s@, i as int, tok_true());
        lemma_expect_bounds(s@, i as int, tok_false());
    }
    match expect(s, i, lit_true()) {
        Some(j) => Some((true, j)),
        None => match expect(s, i, lit_false()) {
            Some(j) => Some((false, j)),
            None => None,
        },
    }
}

// ---------------------------------------------------------------------------
// The upstream event schema
// ---------------------------------------------------------------------------

pub open spec fn opt_bytes(o: Option<Vec<u8>>) -> Option<Seq<u8>> {
    match o {
        Some(v) => Some(v@),
        None => None,
    }
}

/// The members of a market object, read from the first member on: the
/// three known members in any order, each at most once, any other member
/// skipped. The guards on every recursive position hold of every parse
/// and only bound the recursion.
pub open spec fn spec_market_members(
    s: Seq<u8>,
    i: int,
    op: Option<Seq<u8>>,
    title: Option<Seq<u8>>,
    closed: Option<bool>,
) -> Option<(RawMarketModel, int)>
    decreases s.len() - i,
    when 0 <= i <= s.len()
{
    match spec_parse_string(s, i) {
        None => None,
        Some((key, j)) => match spec_expect_byte(s, j, COLON) {
            None => None,
            Some(c) => if !(i < c <= s.len()) {
                None
            } else if key == key_outcome_prices() {
                if op is Some {
                    None
                } else {
                    match spec_parse_string(s, c) {
                        None => None,
                        Some((v, l)) => if c < l <= s.len() {
                            spec_market_after(s, l, Some(v), title, closed)
                        } else {
                            None
                        },
                    }
                }
            } else if key == key_group_item_title() {
                if title is Some {
                    None
                } else {
                    match spec_parse_string(s, c) {
                        None => None,
                        Some((v, l)) => if c < l <= s.len() {
                            spec_market_after(s, l, op, Some(v), closed)
                        } else {
                            None
                        },
                    }
                }
            } else if key == key_closed() {
                if closed is Some {
                    None
                } else {
                    match spec_parse_bool(s, c) {
                        None => None,
                        Some((v, l)) => if c < l <= s.len() {
                            spec_market_after(s, l, op, title, Some(v))
                        } else {
                            None
                        },
                    }
                }
            } else {
                match spec_skip_value(s, c) {
                    None => None,
                    Some(l) => if c < l <= s.len() {
                        spec_market_after(s, l, op, title, closed)
                    } else {
                        None
                    },
                }
            },
        },
    }
}

/// After a market member: the object's end, or a comma and one more
/// member. The object is complete only if all three known members came.
pub open spec fn spec_market_after(
    s: Seq<u8>,
    i: int,
    op: Option<Seq<u8>>,
    title: Option<Seq<u8>>,
    closed: Option<bool>,
) -> Option<(RawMarketModel, int)>
    decreases s.len() - i,
    when 0 <= i <= s.len()
    via spec_market_after_decreases
{
    let k = spec_skip_ws(s, i);
    if k < s.len() && s[k] == RBRACE {
        match (op, title, closed) {
            (Some(o), Some(t), Some(c)) => Some(
                (RawMarketModel { outcome_prices: o, group_item_title: t, closed: c }, k + 1),
            ),
            _ => None,
        }
    } else if k < s.len() && s[k] == COMMA {
        spec_market_members(s, k + 1, op, title, closed)
    } else {
        None
    }
}

#[via_fn]
proof fn spec_market_after_decreases(
    s: Seq<u8>,
    i: int,
    op: Option<Seq<u8>>,
    title: Option<Seq<u8>>,
    closed: Option<bool>,
) {
    lemma_skip_ws_bounds(s, i);
}

/// One market object: brace-delimited members in any order, unknown
/// members skipped.
pub open spec fn spec_parse_market(s: Seq<u8>, i: int) -> Option<(RawMarketModel, int)> {
    match spec_expect_byte(s, i, LBRACE) {
        None => None,
        Some(j) => if 0 <= j <= s.len() {
            spec_market_members(s, j, None, None, None)
        } else {
            None
        },
    }
}

fn parse_market_members(
    s: &[u8],
    i: usize,
    op: Option<Vec<u8>>,
    title: Option<Vec<u8>>,
    closed: Option<bool>,
) -> (r: Option<(PolyMarketMarket, usize)>)
    requires
        i <= s@.len(),
    ensures
        match r {
            Some(p) => spec_market_members(s@, i as int, opt_bytes(op), opt_bytes(title), closed)
                == Some((p.0@, p.1 as int)) && i < p.1 <= s@.len(),
            None => (spec_market_members(s@, i as int, opt_bytes(op), opt_bytes(title), closed)
                is None),
        },
    decreases s@.len() - i,
{
    let (key, j) = match parse_string(s, i) {
        Some(p) => p,
        None => {
            return None;
        },
    };
    let c = match expect_byte(s, j, COLON) {
        Some(c) => c,
        None => {
            return None;
        },
    };
    if eq_bytes(key.as_slice(), lit_key_outcome_prices()) {
        if op.is_some() {
            return None;
        }
        let (v, l) = match parse_string(s, c) {
            Some(p) => p,
            None => {
                return None;
            },
        };
        parse_market_after(s, l, Some(v), title, closed)
    } else if eq_bytes(key.as_slice(), lit_key_group_item_title()) {
        if title.is_some() {
            return None;
        }
        let (v, l) = match parse_string(s, c) {
            Some(p) => p,
            None => {
                return None;
            },
        };
        parse_market_after(s, l, op, Some(v), closed)
    } else if eq_bytes(key.as_slice(), lit_key_closed()) {
        if closed.is_some() {
            return None;
        }
        let (v, l) = match parse_bool(s, c) {
            Some(p) => p,
            None => {
                return None;
            },
        };
        parse_market_after(s, l, op, title, Some(v))
    } else {
        let l = match skip_value(s, c) {
            Some(l) => l,
            None => {
                return None;
            },
        };
        parse_market_after(s, l, op, title, closed)
    }
}

fn parse_market_after(
    s: &[u8],
    i: usize,
    op: Option<Vec<u8>>,
    title: Option<Vec<u8>>,
    closed: Option<bool>,
) -> (r: Option<(PolyMarketMarket, usize)>)
    requires
        i <= s@.len(),
    ensures
        match r {
            Some(p) => spec_market_after(s@, i as int, opt_bytes(op), opt_bytes(title), closed)
                == Some((p.0@, p.1 as int)) && i < p.1 <= s@.len(),
            None => (spec_market_after(s@, i as int, opt_bytes(op), opt_bytes(title), closed)
                is None),
        },
    decreases s@.len() - i,
{
    let k = skip_ws(s, i);
    if k < s.len() && s[k] == RBRACE {
        match (op, title, closed) {
            (Some(o), Some(t), Some(c)) => Some(
                (PolyMarketMarket { outcome_prices: o, group_item_title: t, closed: c }, k + 1),
            ),
            _ => None,
        }
    } else if k < s.len() && s[k] == COMMA {
        parse_market_members(s, k + 1, op, title, closed)
    } else {
        None
    }
}

pub fn parse_market(s: &[u8], i: usize) -> (r: Option<(PolyMarketMarket, usize)>)
    requires
        i <= s@.len(),
    ensures
        match r {
            Some(p) => spec_parse_market(s@, i as int) == Some((p.0@, p.1 as int)) && i < p.1
                <= s@.len(),
            None => spec_parse_market(s@, i as int) is None,
        },
{
    let j = match expect_byte(s, i, LBRACE) {
        Some(j) => j,
        None => {
            return None;
        },
    };
    parse_market_members(s, j, None, None, None)
}

/// The tail of a market list: either the closing bracket, or a comma and
/// one more market before the rest.
pub open spec fn spec_parse_markets_rest(s: Seq<u8>, i: int) -> Option<(Seq<RawMarketModel>, int)>
    decreases s.len() - i,
        when 0 <= i <= s.len()
        via spec_parse_markets_rest_decreases
{
    let k = spec_skip_ws(s, i);
    if k < s.len() && s[k] == RBRACK {
        Some((Seq::empty(), k + 1))
    } else if k < s.len() && s[k] == COMMA {
        match spec_parse_market(s, k + 1) {
            None => None,
            Some((m, l)) => if k + 1 < l <= s.len() {
                match spec_parse_markets_rest(s, l) {
                    None => None,
                    Some((ms, e)) => Some((seq![m] + ms, e)),
                }
            } else {
                None
            },
        }
    } else {
        None
    }
}

#[via_fn]
proof fn spec_parse_markets_rest_decreases(s: Seq<u8>, i: int) {
    lemma_skip_ws_bounds(s, i);
}

/// A whole market list, starting at its opening bracket.
pub open spec fn spec_parse_markets(s: Seq<u8>, i: int) -> Option<(Seq<RawMarketModel>, int)> {
    match spec_expect_byte(s, i, LBRACK) {
        None => None,
        Some(j) => {
            let k = spec_skip_ws(s, j);
            if k < s.len() && s[k] == RBRACK {
                Some((Seq::empty(), k + 1))
            } else {
                match spec_parse_market(s, j) {
                    None => None,
                    Some((m, l)) => if j < l <= s.len() {
                        match spec_parse_markets_rest(s, l) {
                            None => None,
                            Some((ms, e)) => Some((seq![m] + ms, e)),
                        }
                    } else {
                        None
                    },
                }
            }
        },
    }
}

fn parse_markets_rest(s: &[u8], i: usize) -> (r: Option<(Vec<PolyMarketMarket>, usize)>)
    requires
        i <= s@.len(),
    ensures
        match r {
            Some(p) => spec_parse_markets_rest(s@, i as int) == Some(
                (raw_markets_view(p.0@), p.1 as int),
            ) && i < p.1 <= s@.len(),
            None => spec_parse_markets_rest(s@, i as int) is None,
        },
    decreases s@.len() - i,
{
    let k = skip_ws(s, i);
    if k < s.len() && s[k] == RBRACK {
        let v: Vec<PolyMarketMarket> = Vec::new();
        proof {
            assert(raw_markets_view(v@) =~= Seq::<RawMarketModel>::empty());
        }
        return Some((v, k + 1));
    }
    if k < s.len() && s[k] == COMMA {
        match parse_market(s, k + 1) {
            None => None,
            Some((m, l)) => match parse_markets_rest(s, l) {
                None => None,
                Some((rest, e)) => {
                    let ghost r0 = rest@;
                    let ghost mm = m@;
                    let mut v = rest;
                    v.insert(0, m);
                    proof {
                        assert(raw_markets_view(v@) =~= seq![mm] + raw_markets_view(r0));
                    }
                    Some((v, e))
                },
            },
        }
    } else {
        None
    }
}

pub fn parse_markets(s: &[u8], i: usize) -> (r: Option<(Vec<PolyMarketMarket>, usize)>)
    requires
        i <= s@.len(),
    ensures
        match r {
            Some(p) => spec_parse_markets(s@, i as int) == Some(
                (raw_markets_view(p.0@), p.1 as int),
            ) && i < p.1 <= s@.len(),
            None => spec_parse_markets(s@, i as int) is None,
        },
{
    let j = match expect_byte(s, i, LBRACK) {
        Some(j) => j,
        None => {
            return None;
        },
    };
    let k = skip_ws(s, j);
    if k < s.len() && s[k] == RBRACK {
        let v: Vec<PolyMarketMarket> = Vec::new();
        proof {
            assert(raw_markets_view(v@) =~= Seq::<RawMarketModel>::empty());
        }
        return Some((v, k + 1));
    }
    match parse_market(s, j) {
        None => None,
        Some((m, l)) => match parse_markets_rest(s, l) {
            None => None,
            Some((rest, e)) => {
                let ghost r0 = rest@;
                let ghost mm = m@;
                let mut v = rest;
                v.insert(0, m);
                proof {
                    assert(raw_markets_view(v@) =~= seq![mm] + raw_markets_view(r0));
                }
                Some((v, e))
            },
        },
    }
}

pub open spec fn opt_markets(o: Option<Vec<PolyMarketMarket>>) -> Option<Seq<RawMarketModel>> {
    match o {
        Some(v) => Some(raw_markets_view(v@)),
        None => None,
    }
}

/// The members of an event object: `closed` and `markets` in any order,
/// each at most once, any other member skipped.
pub open spec fn spec_event_members(
    s: Seq<u8>,
    i: int,
    closed: Option<bool>,
    markets: Option<Seq<RawMarketModel>>,
) -> Option<(RawEventModel, int)>
    decreases s.len() - i,
    when 0 <= i <= s.len()
{
    match spec_parse_string(s, i) {
        None => None,
        Some((key, j)) => match spec_expect_byte(s, j, COLON) {
            None => None,
            Some(c) => if !(i < c <= s.len()) {
                None
            } else if key == key_closed() {
                if closed is Some {
                    None
                } else {
                    match spec_parse_bool(s, c) {
                        None => None,
                        Some((v, l)) => if c < l <= s.len() {
                            spec_event_after(s, l, Some(v), markets)
                        } else {
                            None
                        },
                    }
                }
            } else if key == key_markets() {
                if markets is Some {
                    None
                } else {
                    match spec_parse_markets(s, c) {
                        None => None,
                        Some((ms, l)) => if c < l <= s.len() {
                            spec_event_after(s, l, closed, Some(ms))
                        } else {
                            None
                        },
                    }
                }
            } else {
                match spec_skip_value(s, c) {
                    None => None,
                    Some(l) => if c < l <= s.len() {
                        spec_event_after(s, l, closed, markets)
                    } else {
                        None
                    },
                }
            },
        },
    }
}

/// After an event member: the object's end, or a comma and one more
/// member. The object is complete only if both known members came.
pub open spec fn spec_event_after(
    s: Seq<u8>,
    i: int,
    closed: Option<bool>,
    markets: Option<Seq<RawMarketModel>>,
) -> Option<(RawEventModel, int)>
    decreases s.len() - i,
    when 0 <= i <= s.len()
    via spec_event_after_decreases
{
    let k = spec_skip_ws(s, i);
    if k < s.len() && s[k] == RBRACE {
        match (closed, markets) {
            (Some(c), Some(ms)) => Some((RawEventModel { closed: c, markets: ms }, k + 1)),
            _ => None,
        }
    } else if k < s.len() && s[k] == COMMA {
        spec_event_members(s, k + 1, closed, markets)
    } else {
        None
    }
}

#[via_fn]
proof fn spec_event_after_decreases(
    s: Seq<u8>,
    i: int,
    closed: Option<bool>,
    markets: Option<Seq<RawMarketModel>>,
) {
    lemma_skip_ws_bounds(s, i);
}

/// A whole event document: an object holding `closed` and `markets`,
/// with nothing but whitespace after it.
pub open spec fn spec_parse_event(s: Seq<u8>) -> Option<RawEventModel> {
    match spec_expect_byte(s, 0, LBRACE) {
        None => None,
        Some(j) => if 0 <= j <= s.len() {
            match spec_event_members(s, j, None, None) {
                None => None,
                Some((ev, end)) => if spec_skip_ws(s, end) == s.len() {
                    Some(ev)
                } else {
                    None
                },
            }
        } else {
            None
        },
    }
}

fn parse_event_members(
    s: &[u8],
    i: usize,
    closed: Option<bool>,
    markets: Option<Vec<PolyMarketMarket>>,
) -> (r: Option<(PolyMarketEvent, usize)>)
    requires
        i <= s@.len(),
    ensures
        match r {
            Some(p) => spec_event_members(s@, i as int, closed, opt_markets(markets)) == Some(
                (p.0@, p.1 as int),
            ) && i < p.1 <= s@.len(),
            None => spec_event_members(s@, i as int, closed, opt_markets(markets)) is None,
        },
    decreases s@.len() - i,
{
    let (key, j) = match parse_string(s, i) {
        Some(p) => p,
        None => {
            return None;
        },
    };
    let c = match expect_byte(s, j, COLON) {
        Some(c) => c,
        None => {
            return None;
        },
    };
    if eq_bytes(key.as_slice(), lit_key_closed()) {
        if closed.is_some() {
            return None;
        }
        let (v, l) = match parse_bool(s, c) {
            Some(p) => p,
            None => {
                return None;
            },
        };
        parse_event_after(s, l, Some(v), markets)
    } else if eq_bytes(key.as_slice(), lit_key_markets()) {
        if markets.is_some() {
            return None;
        }
        let (ms, l) = match parse_markets(s, c) {
            Some(p) => p,
            None => {
                return None;
            },
        };
        parse_event_after(s, l, closed, Some(ms))
    } else {
        let l = match skip_value(s, c) {
            Some(l) => l,
            None => {
                return None;
            },
        };
        parse_event_after(s, l, closed, markets)
    }
}

fn parse_event_after(
    s: &[u8],
    i: usize,
    closed: Option<bool>,
    markets: Option<Vec<PolyMarketMarket>>,
) -> (r: Option<(PolyMarketEvent, usize)>)
    requires
        i <= s@.len(),
    ensures
        match r {
            Some(p) => spec_event_after(s@, i as int, closed, opt_markets(markets)) == Some(
                (p.0@, p.1 as int),
            ) && i < p.1 <= s@.len(),
            None => spec_event_after(s@, i as int, closed, opt_markets(markets)) is None,
        },
    decreases s@.len() - i,
{
    let k = skip_ws(s, i);
    if k < s.len() && s[k] == RBRACE {
        match (closed, markets) {
            (Some(c), Some(ms)) => Some((PolyMarketEvent { closed: c, markets: ms }, k + 1)),
            _ => None,
        }
    } else if k < s.len() && s[k] == COMMA {
        parse_event_members(s, k + 1, closed, markets)
    } else {
        None
    }
}

/// Parse a whole event document, or report that the bytes do not follow
/// the upstream schema.
pub fn parse_event(s: &[u8]) -> (r: Option<PolyMarketEvent>)
    ensures
        match r {
            Some(ev) => spec_parse_event(s@) == Some(ev@),
            None => spec_parse_event(s@) is None,
        },
{
    let j = match expect_byte(s, 0, LBRACE) {
        Some(j) => j,
        None => {
            return None;
        },
    };
    let (ev, end) = match parse_event_members(s, j, None, None) {
        Some(p) => p,
        None => {
            return None;
        },
    };
    if skip_ws(s, end) == s.len() {
        Some(ev)
    } else {
        None
    }
}

// ---------------------------------------------------------------------------
// The double-encoded price array
// ---------------------------------------------------------------------------

pub open spec fn strings_view(v: Seq<Vec<u8>>) -> Seq<Seq<u8>> {
    v.map_values(|x: Vec<u8>| x@)
}

/// The tail of a string list: either the closing bracket, or a comma and
/// one more string before the rest.
pub open spec fn spec_parse_strings_rest(s: Seq<u8>, i: int) -> Option<(Seq<Seq<u8>>, int)>
    decreases s.len() - i,
        when 0 <= i <= s.len()
        via spec_parse_strings_rest_decreases
{
    let k = spec_skip_ws(s, i);
    if k < s.len() && s[k] == RBRACK {
        Some((Seq::empty(), k + 1))
    } else if k < s.len() && s[k] == COMMA {
        match spec_parse_string(s, k + 1) {
            None => None,
            Some((x, l)) => match spec_parse_strings_rest(s, l) {
                None => None,
                Some((xs, e)) => Some((seq![x] + xs, e)),
            },
        }
    } else {
        None
    }
}

#[via_fn]
proof fn spec_parse_strings_rest_decreases(s: Seq<u8>, i: int) {
    lemma_skip_ws_bounds(s, i);
    let k = spec_skip_ws(s, i);
    if k < s.len() && s[k] != RBRACK && s[k] == COMMA {
        lemma_parse_string_bounds(s, k + 1);
    }
}

/// A whole string list, starting at its opening bracket, with nothing but
/// whitespace after it.
pub open spec fn spec_parse_price_array(s: Seq<u8>) -> Option<Seq<Seq<u8>>> {
    match spec_expect_byte(s, 0, LBRACK) {
        None => None,
        Some(j) => {
            let k = spec_skip_ws(s, j);
            if k < s.len() && s[k] == RBRACK {
                if spec_skip_ws(s, k + 1) == s.len() {
                    Some(Seq::empty())
                } else {
                    None
                }
            } else {
                match spec_parse_string(s, j) {
                    None => None,
                    Some((x, l)) => match spec_parse_strings_rest(s, l) {
                        None => None,
                        Some((xs, e)) => if spec_skip_ws(s, e) == s.len() {
                            Some(seq![x] + xs)
                        } else {
                            None
                        },
                    },
                }
            }
        },
    }
}

fn parse_strings_rest(s: &[u8], i: usize) -> (r: Option<(Vec<Vec<u8>>, usize)>)
    requires
        i <= s@.len(),
    ensures
        match r {
            Some(p) => spec_parse_strings_rest(s@, i as int) == Some(
                (strings_view(p.0@), p.1 as int),
            ) && i < p.1 <= s@.len(),
            None => spec_parse_strings_rest(s@, i as int) is None,
        },
    decreases s@.len() - i,
{
    let k = skip_ws(s, i);
    if k < s.len() && s[k] == RBRACK {
        let v: Vec<Vec<u8>> = Vec::new();
        proof {
            assert(strings_view(v@) =~= Seq::<Seq<u8>>::empty());
        }
        return Some((v, k + 1));
    }
    if k < s.len() && s[k] == COMMA {
        match parse_string(s, k + 1) {
            None => None,
            Some((x, l)) => match parse_strings_rest(s, l) {
                None => None,
                Some((rest, e)) => {
                    let ghost r0 = rest@;
                    let ghost xm = x@;
                    let mut v = rest;
                    v.insert(0, x);
                    proof {
                        assert(strings_view(v@) =~= seq![xm] + strings_view(r0));
                    }
                    Some((v, e))
                },
            },
        }
    } else {
        None
    }
}

/// Parse the JSON array of price strings that `outcomePrices` carries as
/// a string value.
pub fn parse_price_array(s: &[u8]) -> (r: Option<Vec<Vec<u8>>>)
    ensures
        match r {
            Some(v) => spec_parse_price_array(s@) == Some(strings_view(v@)),
            None => spec_parse_price_array(s@) is None,
        },
{
    let j = match expect_byte(s, 0, LBRACK) {
        Some(j) => j,
        None => {
            return None;
        },
    };
    let k = skip_ws(s, j);
    if k < s.len() && s[k] == RBRACK {
        if skip_ws(s, k + 1) == s.len() {
            let v: Vec<Vec<u8>> = Vec::new();
            proof {
                assert(strings_view(v@) =~= Seq::<Seq<u8>>::empty());
            }
            return Some(v);
        } else {
            return None;
        }
    }
    match parse_string(s, j) {
        None => None,
        Some((x, l)) => match parse_strings_rest(s, l) {
            None => None,
            Some((rest, e)) => {
                if skip_ws(s, e) == s.len() {
                    let ghost r0 = rest@;
                    let ghost xm = x@;
                    let mut v = rest;
                    v.insert(0, x);
                    proof {
                        assert(strings_view(v@) =~= seq![xm] + strings_view(r0));
                    }
                    Some(v)
                } else {
                    None
                }
            },
        },
    }
}

// ---------------------------------------------------------------------------
// The request input
// ---------------------------------------------------------------------------

/// The members of the input object: `event_slug`, at most once, any
/// other member skipped.
pub open spec fn spec_input_members(s: Seq<u8>, i: int, slug: Option<Seq<u8>>) -> Option<
    (Seq<u8>, int),
>
    decreases s.len() - i,
    when 0 <= i <= s.len()
{
    match spec_parse_string(s, i) {
        None => None,
        Some((key, j)) => match spec_expect_byte(s, j, COLON) {
            None => None,
            Some(c) => if !(i < c <= s.len()) {
                None
            } else if key == key_event_slug() {
                if slug is Some {
                    None
                } else {
                    match spec_parse_string(s, c) {
                        None => None,
                        Some((v, l)) => if c < l <= s.len() {
                            spec_input_after(s, l, Some(v))
                        } else {
                            None
                        },
                    }
                }
            } else {
                match spec_skip_value(s, c) {
                    None => None,
                    Some(l) => if c < l <= s.len() {
                        spec_input_after(s, l, slug)
                    } else {
                        None
                    },
                }
            },
        },
    }
}

/// After an input member: the object's end, or a comma and one more
/// member. The object is complete only if the slug came.
pub open spec fn spec_input_after(s: Seq<u8>, i: int, slug: Option<Seq<u8>>) -> Option<
    (Seq<u8>, int),
>
    decreases s.len() - i,
    when 0 <= i <= s.len()
    via spec_input_after_decreases
{
    let k = spec_skip_ws(s, i);
    if k < s.len() && s[k] == RBRACE {
        match slug {
            Some(sl) => Some((sl, k + 1)),
            None => None,
        }
    } else if k < s.len() && s[k] == COMMA {
        spec_input_members(s, k + 1, slug)
    } else {
        None
    }
}

#[via_fn]
proof fn spec_input_after_decreases(s: Seq<u8>, i: int, slug: Option<Seq<u8>>) {
    lemma_skip_ws_bounds(s, i);
}

/// The execution-phase input document: an object holding `event_slug`,
/// with nothing but whitespace after it.
pub open spec fn spec_parse_input(s: Seq<u8>) -> Option<Seq<u8>> {
    match spec_expect_byte(s, 0, LBRACE) {
        None => None,
        Some(j) => if 0 <= j <= s.len() {
            match spec_input_members(s, j, None) {
                None => None,
                Some((slug, end)) => if spec_skip_ws(s, end) == s.len() {
                    Some(slug)
                } else {
                    None
                },
            }
        } else {
            None
        },
    }
}

fn parse_input_members(s: &[u8], i: usize, slug: Option<Vec<u8>>) -> (r: Option<(Vec<u8>, usize)>)
    requires
        i <= s@.len(),
    ensures
        match r {
            Some(p) => spec_input_members(s@, i as int, opt_bytes(slug)) == Some(
                (p.0@, p.1 as int),
            ) && i < p.1 <= s@.len(),
            None => spec_input_members(s@, i as int, opt_bytes(slug)) is None,
        },
    decreases s@.len() - i,
{
    let (key, j) = match parse_string(s, i) {
        Some(p) => p,
        None => {
            return None;
        },
    };
    let c = match expect_byte(s, j, COLON) {
        Some(c) => c,
        None => {
            return None;
        },
    };
    if eq_bytes(key.as_slice(), lit_key_event_slug()) {
        if slug.is_some() {
            return None;
        }
        let (v, l) = match parse_string(s, c) {
            Some(p) => p,
            None => {
                return None;
            },
        };
        parse_input_after(s, l, Some(v))
    } else {
        let l = match skip_value(s, c) {
            Some(l) => l,
            None => {
                return None;
            },
        };
        parse_input_after(s, l, slug)
    }
}

fn parse_input_after(s: &[u8], i: usize, slug: Option<Vec<u8>>) -> (r: Option<(Vec<u8>, usize)>)
    requires
        i <= s@.len(),
    ensures
        match r {
            Some(p) => spec_input_after(s@, i as int, opt_bytes(slug)) == Some(
                (p.0@, p.1 as int),
            ) && i < p.1 <= s@.len(),
            None => spec_input_after(s@, i as int, opt_bytes(slug)) is None,
        },
    decreases s@.len() - i,
{
    let k = skip_ws(s, i);
    if k < s.len() && s[k] == RBRACE {
        match slug {
            Some(sl) => Some((sl, k + 1)),
            None => None,
        }
    } else if k < s.len() && s[k] == COMMA {
        parse_input_members(s, k + 1, slug)
    } else {
        None
    }
}

/// Parse the execution-phase input and hand back the event slug.
pub fn parse_input(s: &[u8]) -> (r: Option<Vec<u8>>)
    ensures
        match r {
            Some(slug) => spec_parse_input(s@) == Some(slug@),
            None => spec_parse_input(s@) is None,
        },
{
    let j = match expect_byte(s, 0, LBRACE) {
        Some(j) => j,
        None => {
            return None;
        },
    };
    let (slug, end) = match parse_input_members(s, j, None) {
        Some(p) => p,
        None => {
            return None;
        },
    };
    if skip_ws(s, end) == s.len() {
        Some(slug)
    } else {
        None
    }
}

// ---------------------------------------------------------------------------
// The normalized response schema
// ---------------------------------------------------------------------------

/// One normalized market object: `{"yes_price": string, "closed": bool}`,
/// where the price must be an escape-free decimal string.
pub open spec fn spec_parse_out_market(s: Seq<u8>, i: int) -> Option<(MarketModel, int)> {
    match spec_expect_byte(s, i, LBRACE) {
        None => None,
        Some(j1) => match spec_member(s, j1, tok_yes_price()) {
            None => None,
            Some(j2) => match spec_parse_plain_string(s, j2) {
                None => None,
                Some((p, j3)) => if !spec_is_decimal(p) {
                    None
                } else {
                    match spec_expect_byte(s, j3, COMMA) {
                        None => None,
                        Some(j4) => match spec_member(s, j4, tok_closed()) {
                            None => None,
                            Some(j5) => match spec_parse_bool(s, j5) {
                                None => None,
                                Some((c, j6)) => match spec_expect_byte(s, j6, RBRACE) {
                                    None => None,
                                    Some(j7) => Some(
                                        (MarketModel { yes_price: p, closed: c }, j7),
                                    ),
                                },
                            },
                        },
                    }
                },
            },
        },
    }
}

pub proof fn lemma_parse_out_market_bounds(s: Seq<u8>, i: int)
    requires
        0 <= i <= s.len(),
    ensures
        spec_parse_out_market(s, i) matches Some(p) ==> i < p.1 <= s.len(),
{
    lemma_expect_byte_bounds(s, i, LBRACE);
    if let Some(j1) = spec_expect_byte(s, i, LBRACE) {
        lemma_member_bounds(s, j1, tok_yes_price());
        if let Some(j2) = spec_member(s, j1, tok_yes_price()) {
            lemma_parse_plain_string_bounds(s, j2);
            if let Some((p, j3)) = spec_parse_plain_string(s, j2) {
                lemma_expect_byte_bounds(s, j3, COMMA);
                if let Some(j4) = spec_expect_byte(s, j3, COMMA) {
                    lemma_member_bounds(s, j4, tok_closed());
                    if let Some(j5) = spec_member(s, j4, tok_closed()) {
                        lemma_parse_bool_bounds(s, j5);
                        if let Some((c, j6)) = spec_parse_bool(s, j5) {
                            lemma_expect_byte_bounds(s, j6, RBRACE);
                        }
                    }
                }
            }
        }
    }
}

pub fn parse_out_market(s: &[u8], i: usize) -> (r: Option<(Market, usize)>)
    requires
        i <= s@.len(),
    ensures
        match r {
            Some(p) => spec_parse_out_market(s@, i as int) == Some((p.0@, p.1 as int)) && i < p.1
                <= s@.len(),
            None => spec_parse_out_market(s@, i as int) is None,
        },
{
    let j1 = match expect_byte(s, i, LBRACE) {
        Some(j) => j,
        None => {
            return None;
        },
    };
    let j2 = match member(s, j1, lit_yes_price()) {
        Some(j) => j,
        None => {
            return None;
        },
    };
    let (p, j3) = match parse_plain_string(s, j2) {
        Some(p) => p,
        None => {
            return None;
        },
    };
    if !is_decimal(p.as_slice()) {
        return None;
    }
    let j4 = match expect_byte(s, j3, COMMA) {
        Some(j) => j,
        None => {
            return None;
        },
    };
    let j5 = match member(s, j4, lit_closed()) {
        Some(j) => j,
        None => {
            return None;
        },
    };
    let (c, j6) = match parse_bool(s, j5) {
        Some(p) => p,
        None => {
            return None;
        },
    };
    let j7 = match expect_byte(s, j6, RBRACE) {
        Some(j) => j,
        None => {
            return None;
        },
    };
    Some((Market { yes_price: p, closed: c }, j7))
}

/// The tail of a normalized market list.
pub open spec fn spec_parse_out_rest(s: Seq<u8>, i: int) -> Option<(Seq<MarketModel>, int)>
    decreases s.len() - i,
        when 0 <= i <= s.len()
        via spec_parse_out_rest_decreases
{
    let k = spec_skip_ws(s, i);
    if k < s.len() && s[k] == RBRACK {
        Some((Seq::empty(), k + 1))
    } else if k < s.len() && s[k] == COMMA {
        match spec_parse_out_market(s, k + 1) {
            None => None,
            Some((m, l)) => match spec_parse_out_rest(s, l) {
                None => None,
                Some((ms, e)) => Some((seq![m] + ms, e)),
            },
        }
    } else {
        None
    }
}

#[via_fn]
proof fn spec_parse_out_rest_decreases(s: Seq<u8>, i: int) {
    lemma_skip_ws_bounds(s, i);
    let k = spec_skip_ws(s, i);
    if k < s.len() && s[k] != RBRACK && s[k] == COMMA {
        lemma_parse_out_market_bounds(s, k + 1);
    }
}

/// A whole normalized market list, starting at its opening bracket.
pub open spec fn spec_parse_out_markets(s: Seq<u8>, i: int) -> Option<(Seq<MarketModel>, int)> {
    match spec_expect_byte(s, i, LBRACK) {
        None => None,
        Some(j) => {
            let k = spec_skip_ws(s, j);
            if k < s.len() && s[k] == RBRACK {
                Some((Seq::empty(), k + 1))
            } else {
                match spec_parse_out_market(s, j) {
                    None => None,
                    Some((m, l)) => match spec_parse_out_rest(s, l) {
                        None => None,
                        Some((ms, e)) => Some((seq![m] + ms, e)),
                    },
                }
            }
        },
    }
}

fn parse_out_rest(s: &[u8], i: usize) -> (r: Option<(Vec<Market>, usize)>)
    requires
        i <= s@.len(),
    ensures
        match r {
            Some(p) => spec_parse_out_rest(s@, i as int) == Some(
                (markets_view(p.0@), p.1 as int),
            ) && i < p.1 <= s@.len(),
            None => spec_parse_out_rest(s@, i as int) is None,
        },
    decreases s@.len() - i,
{
    let k = skip_ws(s, i);
    if k < s.len() && s[k] == RBRACK {
        let v: Vec<Market> = Vec::new();
        proof {
            assert(markets_view(v@) =~= Seq::<MarketModel>::empty());
        }
        return Some((v, k + 1));
    }
    if k < s.len() && s[k] == COMMA {
        match parse_out_market(s, k + 1) {
            None => None,
            Some((m, l)) => match parse_out_rest(s, l) {
                None => None,
                Some((rest, e)) => {
                    let ghost r0 = rest@;
                    let ghost mm = m@;
                    let mut v = rest;
                    v.insert(0, m);
                    proof {
                        assert(markets_view(v@) =~= seq![mm] + markets_view(r0));
                    }
                    Some((v, e))
                },
            },
        }
    } else {
        None
    }
}

pub fn parse_out_markets(s: &[u8], i: usize) -> (r: Option<(Vec<Market>, usize)>)
    requires
        i <= s@.len(),
    ensures
        match r {
            Some(p) => spec_parse_out_markets(s@, i as int) == Some(
                (markets_view(p.0@), p.1 as int),
            ) && i < p.1 <= s@.len(),
            None => spec_parse_out_markets(s@, i as int) is None,
        },
{
    let j = match expect_byte(s, i, LBRACK) {
        Some(j) => j,
        None => {
            return None;
        },
    };
    let k = skip_ws(s, j);
    if k < s.len() && s[k] == RBRACK {
        let v: Vec<Market> = Vec::new();
        proof {
            assert(markets_view(v@) =~= Seq::<MarketModel>::empty());
        }
        return Some((v, k + 1));
    }
    match parse_out_market(s, j) {
        None => None,
        Some((m, l)) => match parse_out_rest(s, l) {
            None => None,
            Some((rest, e)) => {
                let ghost r0 = rest@;
                let ghost mm = m@;
                let mut v = rest;
                v.insert(0, m);
                proof {
                    assert(markets_view(v@) =~= seq![mm] + markets_view(r0));
                }
                Some((v, e))
            },
        },
    }
}

/// A whole normalized response document: `{"markets": [...]}`, with
/// nothing but whitespace after it.
pub open spec fn spec_parse_response(s: Seq<u8>) -> Option<Seq<MarketModel>> {
    match spec_expect_byte(s, 0, LBRACE) {
        None => None,
        Some(j1) => match spec_member(s, j1, tok_markets()) {
            None => None,
            Some(j2) => match spec_parse_out_markets(s, j2) {
                None => None,
                Some((ms, j3)) => match spec_expect_byte(s, j3, RBRACE) {
                    None => None,
                    Some(j4) => if spec_skip_ws(s, j4) == s.len() {
                        Some(ms)
                    } else {
                        None
                    },
                },
            },
        },
    }
}

/// Parse a normalized response document, or report that the bytes do not
/// follow the normalized schema.
pub fn parse_response(s: &[u8]) -> (r: Option<Response>)
    ensures
        match r {
            Some(resp) => spec_parse_response(s@) == Some(resp@),
            None => spec_parse_response(s@) is None,
        },
{
    let j1 = match expect_byte(s, 0, LBRACE) {
        Some(j) => j,
        None => {
            return None;
        },
    };
    let j2 = match member(s, j1, lit_markets()) {
        Some(j) => j,
        None => {
            return None;
        },
    };
    let (ms, j3) = match parse_out_markets(s, j2) {
        Some(p) => p,
        None => {
            return None;
        },
    };
    let j4 = match expect_byte(s, j3, RBRACE) {
        Some(j) => j,
        None => {
            return None;
        },
    };
    if skip_ws(s, j4) == s.len() {
        Some(Response { markets: ms })
    } else {
        None
    }
}

// ---------------------------------------------------------------------------
// Serializing the normalized response
// ---------------------------------------------------------------------------

pub open spec fn spec_ser_bool(b: bool) -> Seq<u8> {
    if b {
        tok_true()
    } else {
        tok_false()
    }
}

/// The exact bytes emitted for one normalized market: compact, members in
/// schema order, the price quoted verbatim.
pub open spec fn spec_ser_market(m: MarketModel) -> Seq<u8> {
    seq![LBRACE] + tok_yes_price() + seq![COLON] + seq![QUOTE] + m.yes_price + seq![QUOTE]
        + seq![COMMA] + tok_closed() + seq![COLON] + spec_ser_bool(m.closed) + seq![RBRACE]
}

/// The bytes emitted after the first market: each further market behind a
/// comma, then the closing bracket.
pub open spec fn spec_ser_rest(ms: Seq<MarketModel>, k: int) -> Seq<u8>
    decreases ms.len() - k,
    when 0 <= k
{
    if k >= ms.len() {
        seq![RBRACK]
    } else {
        seq![COMMA] + spec_ser_market(ms[k]) + spec_ser_rest(ms, k + 1)
    }
}

pub open spec fn spec_ser_markets(ms: Seq<MarketModel>) -> Seq<u8> {
    if ms.len() == 0 {
        seq![LBRACK, RBRACK]
    } else {
        seq![LBRACK] + spec_ser_market(ms[0]) + spec_ser_rest(ms, 1)
    }
}

/// The exact bytes of a serialized normalized response.
pub open spec fn spec_ser_response(ms: Seq<MarketModel>) -> Seq<u8> {
    seq![LBRACE] + tok_markets() + seq![COLON] + spec_ser_markets(ms) + seq![RBRACE]
}

pub fn push_all(out: &mut Vec<u8>, s: &[u8])
    ensures
        final(out)@ == old(out)@ + s@,
{
    proof {
        assert(out@ =~= old(out)@ + s@.subrange(0, 0));
    }
    let mut k: usize = 0;
    while k < s.len()
        invariant
            k <= s@.len(),
            out@ == old(out)@ + s@.subrange(0, k as int),
        decreases s@.len() - k,
    {
        out.push(s[k]);
        proof {
            assert(old(out)@ + s@.subrange(0, k + 1) =~= (old(out)@ + s@.subrange(0, k as int))
                .push(s@[k as int]));
        }
        k += 1;
    }
    proof {
        assert(s@.subrange(0, s@.len() as int) =~= s@);
    }
}

fn ser_market(m: &Market, out: &mut Vec<u8>)
    ensures
        final(out)@ == old(out)@ + spec_ser_market(m@),
{
    out.push(LBRACE);
    push_all(out, lit_yes_price());
    out.push(COLON);
    out.push(QUOTE);
    push_all(out, m.yes_price.as_slice());
    out.push(QUOTE);
    out.push(COMMA);
    push_all(out, lit_closed());
    out.push(COLON);
    if m.closed {
        push_all(out, lit_true());
    } else {
        push_all(out, lit_false());
    }
    out.push(RBRACE);
    proof {
        assert(out@ =~= old(out)@ + spec_ser_market(m@));
    }
}

fn ser_rest(ms: &Vec<Market>, k: usize, out: &mut Vec<u8>)
    requires
        k <= ms@.len(),
    ensures
        final(out)@ == old(out)@ + spec_ser_rest(markets_view(ms@), k as int),
    decreases ms@.len() - k,
{
    if k == ms.len() {
        out.push(RBRACK);
        proof {
            assert(out@ =~= old(out)@ + spec_ser_rest(markets_view(ms@), k as int));
        }
    } else {
        out.push(COMMA);
        ser_market(&ms[k], out);
        ser_rest(ms, k + 1, out);
        proof {
            assert(out@ =~= old(out)@ + spec_ser_rest(markets_view(ms@), k as int));
        }
    }
}

/// Serialize a normalized response to the exact bytes the schema's
/// serializer grammar defines.
pub fn serialize_response(r: &Response) -> (out: Vec<u8>)
    ensures
        out@ == spec_ser_response(r@),
{
    let mut out: Vec<u8> = Vec::new();
    out.push(LBRACE);
    push_all(&mut out, lit_markets());
    out.push(COLON);
    if r.markets.len() == 0 {
        out.push(LBRACK);
        out.push(RBRACK);
    } else {
        out.push(LBRACK);
        ser_market(&r.markets[0], &mut out);
        ser_rest(&r.markets, 1, &mut out);
    }
    out.push(RBRACE);
    proof {
        assert(out@ =~= spec_ser_response(r@));
    }
    out
}

} // verus!
