//! The tally phase's round trip: whatever parses as a normalized
//! response re-parses, after re-serialization, to the very same value.
//! The serializer emits the compact form of the schema, so each lemma
//! here walks one production of the grammar over a serialized piece.

use vstd::prelude::*;

use crate::json::{
    is_plain, is_ws, lemma_decimal_plain, lemma_expect_byte_concat, lemma_expect_concat,
    lemma_plain_body_concat, lemma_skip_ws_bounds, spec_expect, spec_expect_byte, spec_is_decimal,
    spec_parse_plain_string, spec_skip_ws, COLON, COMMA, LBRACE, LBRACK, QUOTE, RBRACE, RBRACK,
};
use crate::pipeline::{spec_execution, spec_normalize_from, spec_normalize_markets, spec_tally};
use crate::schema::{
    lemma_parse_out_market_bounds, spec_member, spec_parse_bool, spec_parse_event,
    spec_parse_out_market, spec_parse_out_markets, spec_parse_out_rest, spec_parse_response,
    spec_ser_bool, spec_ser_market, spec_ser_markets, spec_ser_response, spec_ser_rest,
    MarketModel, RawMarketModel,
};
use crate::tokens::{tok_closed, tok_false, tok_markets, tok_true, tok_yes_price};
use vstd::seq_lib::lemma_concat_associative;

verus! {

// ---------------------------------------------------------------------------
// What parsing guarantees about the parsed prices
// ---------------------------------------------------------------------------

proof fn lemma_out_market_decimal(s: Seq<u8>, i: int)
    requires
        0 <= i <= s.len(),
    ensures
        (spec_parse_out_market(s, i) matches Some(p) ==> spec_is_decimal(p.0.yes_price)),
{
}

proof fn lemma_out_rest_decimal(s: Seq<u8>, i: int)
    requires
        0 <= i <= s.len(),
    ensures
        (spec_parse_out_rest(s, i) matches Some(p) ==> forall|k: int|
            0 <= k < p.0.len() ==> spec_is_decimal((#[trigger] p.0[k]).yes_price)),
    decreases s.len() - i,
{
    lemma_skip_ws_bounds(s, i);
    let k0 = spec_skip_ws(s, i);
    if k0 < s.len() && s[k0] == RBRACK {
    } else if k0 < s.len() && s[k0] == COMMA {
        lemma_parse_out_market_bounds(s, k0 + 1);
        if let Some((m, l)) = spec_parse_out_market(s, k0 + 1) {
            lemma_out_market_decimal(s, k0 + 1);
            lemma_out_rest_decimal(s, l);
        }
    }
}

proof fn lemma_out_markets_decimal(s: Seq<u8>, i: int)
    requires
        0 <= i <= s.len(),
    ensures
        (spec_parse_out_markets(s, i) matches Some(p) ==> forall|k: int|
            0 <= k < p.0.len() ==> spec_is_decimal((#[trigger] p.0[k]).yes_price)),
{
    if let Some(j) = spec_expect_byte(s, i, LBRACK) {
        crate::json::lemma_expect_byte_bounds(s, i, LBRACK);
        let k0 = spec_skip_ws(s, j);
        if k0 < s.len() && s[k0] == RBRACK {
        } else {
            lemma_parse_out_market_bounds(s, j);
            if let Some((m, l)) = spec_parse_out_market(s, j) {
                lemma_out_market_decimal(s, j);
                lemma_out_rest_decimal(s, l);
            }
        }
    }
}

/// Every price of a parsed normalized response is a decimal string.
pub proof fn lemma_response_decimal(b: Seq<u8>)
    ensures
        (spec_parse_response(b) matches Some(ms) ==> forall|k: int|
            0 <= k < ms.len() ==> spec_is_decimal((#[trigger] ms[k]).yes_price)),
{
    if let Some(j1) = spec_expect_byte(b, 0, LBRACE) {
        crate::json::lemma_expect_byte_bounds(b, 0, LBRACE);
        crate::schema::lemma_member_bounds(b, j1, tok_markets());
        if let Some(j2) = spec_member(b, j1, tok_markets()) {
            lemma_out_markets_decimal(b, j2);
        }
    }
}

// ---------------------------------------------------------------------------
// Parsing serialized pieces
// ---------------------------------------------------------------------------

proof fn lemma_rt_bool(b: bool, pre: Seq<u8>, tail: Seq<u8>)
    ensures
        spec_parse_bool(pre + spec_ser_bool(b) + tail, pre.len() as int) == Some(
            (b, (pre.len() + spec_ser_bool(b).len()) as int),
        ),
{
    let s = pre + spec_ser_bool(b) + tail;
    if b {
        lemma_expect_concat(pre, tok_true(), tail);
    } else {
        assert(s[pre.len() as int] == 102u8);
        assert(spec_skip_ws(s, pre.len() as int) == pre.len() as int);
        if pre.len() + tok_true().len() <= s.len() {
            assert(s.subrange(pre.len() as int, pre.len() as int + 4)[0] == 102u8);
            assert(s.subrange(pre.len() as int, pre.len() as int + 4) != tok_true());
        }
        assert(spec_expect(s, pre.len() as int, tok_true()) is None);
        lemma_expect_concat(pre, tok_false(), tail);
    }
}

proof fn lemma_rt_plain_string(content: Seq<u8>, pre: Seq<u8>, tail: Seq<u8>)
    requires
        forall|k: int| 0 <= k < content.len() ==> is_plain(#[trigger] content[k]),
    ensures
        spec_parse_plain_string(
            pre + (seq![QUOTE] + content + seq![QUOTE]) + tail,
            pre.len() as int,
        ) == Some((content, (pre.len() + content.len() + 2) as int)),
{
    let s = pre + (seq![QUOTE] + content + seq![QUOTE]) + tail;
    assert(s[pre.len() as int] == QUOTE);
    assert(spec_skip_ws(s, pre.len() as int) == pre.len() as int);
    let pre2 = pre + seq![QUOTE];
    assert(pre2 + content + seq![QUOTE] + tail =~= s);
    lemma_plain_body_concat(pre2, content, tail);
}

proof fn lemma_rt_member(pre: Seq<u8>, key: Seq<u8>, tail: Seq<u8>)
    requires
        key.len() > 0,
        !is_ws(key[0]),
    ensures
        spec_member(pre + key + seq![COLON] + tail, pre.len() as int, key) == Some(
            (pre.len() + key.len() + 1) as int,
        ),
{
    let s = pre + key + seq![COLON] + tail;
    assert(pre + key + (seq![COLON] + tail) =~= s);
    lemma_expect_concat(pre, key, seq![COLON] + tail);
    assert((pre + key) + seq![COLON] + tail =~= s);
    lemma_expect_byte_concat(pre + key, COLON, tail);
}

#[verifier::rlimit(100)]
#[verifier::spinoff_prover]
proof fn lemma_rt_out_market(m: MarketModel, pre: Seq<u8>, tail: Seq<u8>)
    requires
        spec_is_decimal(m.yes_price),
    ensures
        spec_parse_out_market(pre + spec_ser_market(m) + tail, pre.len() as int) == Some(
            (m, (pre.len() + spec_ser_market(m).len()) as int),
        ),
{
    lemma_decimal_plain(m.yes_price);
    let s = pre + spec_ser_market(m) + tail;
    let sb = spec_ser_bool(m.closed);
    let q = seq![QUOTE];
    let colon = seq![COLON];
    let comma = seq![COMMA];
    let lb = seq![LBRACE];
    let rb = seq![RBRACE];

    // The serialized market, right-grouped from each parse position on.
    let t11 = rb + tail;
    let t10 = sb + t11;
    let t9 = colon + t10;
    let t8 = tok_closed() + t9;
    let t7 = comma + t8;
    let t6 = q + t7;
    let t5 = m.yes_price + t6;
    let t4 = q + t5;
    let t3 = colon + t4;
    let t2 = tok_yes_price() + t3;

    // The same bytes, left-grouped as the serializer builds them.
    let c1 = lb + tok_yes_price();
    let c2 = c1 + colon;
    let c3 = c2 + q;
    let c4 = c3 + m.yes_price;
    let c5 = c4 + q;
    let c6 = c5 + comma;
    let c7 = c6 + tok_closed();
    let c8 = c7 + colon;
    let c9 = c8 + sb;
    let sm = c9 + rb;
    assert(spec_ser_market(m) == sm);

    lemma_concat_associative(pre, sm, tail);
    lemma_concat_associative(c9, rb, tail);
    lemma_concat_associative(c8, sb, t11);
    lemma_concat_associative(c7, colon, t10);
    lemma_concat_associative(c6, tok_closed(), t9);
    lemma_concat_associative(c5, comma, t8);
    lemma_concat_associative(c4, q, t7);
    lemma_concat_associative(c3, m.yes_price, t6);
    lemma_concat_associative(c2, q, t5);
    lemma_concat_associative(c1, colon, t4);
    lemma_concat_associative(lb, tok_yes_price(), t3);
    assert(s == pre + (lb + t2));

    // `{`
    let pre1 = pre + lb;
    lemma_concat_associative(pre, lb, t2);
    lemma_expect_byte_concat(pre, LBRACE, t2);
    assert(spec_expect_byte(s, pre.len() as int, LBRACE) == Some(pre1.len() as int));

    // `"yes_price":`
    let pre2 = pre1 + tok_yes_price() + colon;
    lemma_concat_associative(pre1, tok_yes_price(), t3);
    lemma_concat_associative(pre1 + tok_yes_price(), colon, t4);
    lemma_rt_member(pre1, tok_yes_price(), t4);
    assert(spec_member(s, pre1.len() as int, tok_yes_price()) == Some(pre2.len() as int));

    // the quoted price
    let g = q + m.yes_price + q;
    lemma_concat_associative(m.yes_price, q, t7);
    lemma_concat_associative(q, m.yes_price + q, t7);
    lemma_concat_associative(q, m.yes_price, q);
    assert(t4 == g + t7);
    lemma_concat_associative(pre2, g, t7);
    lemma_rt_plain_string(m.yes_price, pre2, t7);
    let pre3 = pre2 + g;
    assert(spec_parse_plain_string(s, pre2.len() as int) == Some(
        (m.yes_price, pre3.len() as int),
    ));

    // `,`
    let pre4 = pre3 + comma;
    lemma_concat_associative(pre3, comma, t8);
    lemma_expect_byte_concat(pre3, COMMA, t8);
    assert(spec_expect_byte(s, pre3.len() as int, COMMA) == Some(pre4.len() as int));

    // `"closed":`
    let pre5 = pre4 + tok_closed() + colon;
    lemma_concat_associative(pre4, tok_closed(), t9);
    lemma_concat_associative(pre4 + tok_closed(), colon, t10);
    lemma_rt_member(pre4, tok_closed(), t10);
    assert(spec_member(s, pre4.len() as int, tok_closed()) == Some(pre5.len() as int));

    // the boolean
    let pre6 = pre5 + sb;
    lemma_concat_associative(pre5, sb, t11);
    lemma_rt_bool(m.closed, pre5, t11);
    assert(spec_parse_bool(s, pre5.len() as int) == Some((m.closed, pre6.len() as int)));

    // `}`
    lemma_concat_associative(pre6, rb, tail);
    lemma_expect_byte_concat(pre6, RBRACE, tail);
    assert(spec_expect_byte(s, pre6.len() as int, RBRACE) == Some(pre6.len() + 1 as int));

    assert(m =~= MarketModel { yes_price: m.yes_price, closed: m.closed });
    assert(pre6.len() + 1 == pre.len() + spec_ser_market(m).len());
}

#[verifier::rlimit(100)]
#[verifier::spinoff_prover]
proof fn lemma_rt_out_rest(ms: Seq<MarketModel>, k: int, pre: Seq<u8>, tail: Seq<u8>)
    requires
        0 <= k <= ms.len(),
        forall|i: int| k <= i < ms.len() ==> spec_is_decimal((#[trigger] ms[i]).yes_price),
    ensures
        spec_parse_out_rest(pre + spec_ser_rest(ms, k) + tail, pre.len() as int) == Some(
            (ms.skip(k), (pre.len() + spec_ser_rest(ms, k).len()) as int),
        ),
    decreases ms.len() - k,
{
    let s = pre + spec_ser_rest(ms, k) + tail;
    if k >= ms.len() {
        assert(s[pre.len() as int] == RBRACK);
        assert(spec_skip_ws(s, pre.len() as int) == pre.len() as int);
        assert(ms.skip(k) =~= Seq::<MarketModel>::empty());
    } else {
        let a = seq![COMMA];
        let sm = spec_ser_market(ms[k]);
        let rest = spec_ser_rest(ms, k + 1);
        let pre1 = pre + a;
        let pre2 = pre1 + sm;

        lemma_concat_associative(pre, (a + sm) + rest, tail);
        lemma_concat_associative(a + sm, rest, tail);
        lemma_concat_associative(pre, a + sm, rest + tail);
        lemma_concat_associative(pre, a, sm);
        assert(s == (pre1 + sm) + (rest + tail));

        assert(s[pre.len() as int] == COMMA);
        assert(spec_skip_ws(s, pre.len() as int) == pre.len() as int);

        lemma_rt_out_market(ms[k], pre1, rest + tail);
        assert(spec_parse_out_market(s, pre1.len() as int) == Some((ms[k], pre2.len() as int)));

        lemma_concat_associative(pre2, rest, tail);
        lemma_rt_out_rest(ms, k + 1, pre2, tail);
        assert(spec_parse_out_rest(s, pre2.len() as int) == Some(
            (ms.skip(k + 1), (pre2.len() + rest.len()) as int),
        ));

        assert(seq![ms[k]] + ms.skip(k + 1) =~= ms.skip(k));
        assert(pre2.len() + rest.len() == pre.len() + spec_ser_rest(ms, k).len());
    }
}

#[verifier::rlimit(100)]
#[verifier::spinoff_prover]
proof fn lemma_rt_out_markets(ms: Seq<MarketModel>, pre: Seq<u8>, tail: Seq<u8>)
    requires
        forall|i: int| 0 <= i < ms.len() ==> spec_is_decimal((#[trigger] ms[i]).yes_price),
    ensures
        spec_parse_out_markets(pre + spec_ser_markets(ms) + tail, pre.len() as int) == Some(
            (ms, (pre.len() + spec_ser_markets(ms).len()) as int),
        ),
{
    let s = pre + spec_ser_markets(ms) + tail;
    let lb = seq![LBRACK];
    let rb = seq![RBRACK];
    if ms.len() == 0 {
        assert(seq![LBRACK, RBRACK] =~= lb + rb);
        lemma_concat_associative(pre, lb + rb, tail);
        lemma_concat_associative(lb, rb, tail);
        lemma_concat_associative(pre, lb, rb + tail);
        assert(s == (pre + lb) + (rb + tail));
        lemma_expect_byte_concat(pre, LBRACK, rb + tail);
        assert(spec_expect_byte(s, pre.len() as int, LBRACK) == Some(pre.len() + 1 as int));
        assert(s[pre.len() as int + 1] == RBRACK);
        assert(spec_skip_ws(s, pre.len() as int + 1) == pre.len() as int + 1);
        assert(ms =~= Seq::<MarketModel>::empty());
    } else {
        let sm = spec_ser_market(ms[0]);
        let rest = spec_ser_rest(ms, 1);
        let pre1 = pre + lb;
        let pre2 = pre1 + sm;

        lemma_concat_associative(pre, (lb + sm) + rest, tail);
        lemma_concat_associative(lb + sm, rest, tail);
        lemma_concat_associative(pre, lb + sm, rest + tail);
        lemma_concat_associative(pre, lb, sm);
        assert(s == (pre1 + sm) + (rest + tail));

        lemma_concat_associative(pre1, sm, rest + tail);
        lemma_expect_byte_concat(pre, LBRACK, sm + (rest + tail));
        assert(spec_expect_byte(s, pre.len() as int, LBRACK) == Some(pre1.len() as int));

        assert(sm[0] == LBRACE);
        assert(s[pre1.len() as int] == LBRACE);
        assert(spec_skip_ws(s, pre1.len() as int) == pre1.len() as int);

        lemma_rt_out_market(ms[0], pre1, rest + tail);
        assert(spec_parse_out_market(s, pre1.len() as int) == Some((ms[0], pre2.len() as int)));

        lemma_concat_associative(pre2, rest, tail);
        lemma_rt_out_rest(ms, 1, pre2, tail);
        assert(spec_parse_out_rest(s, pre2.len() as int) == Some(
            (ms.skip(1), (pre2.len() + rest.len()) as int),
        ));

        assert(seq![ms[0]] + ms.skip(1) =~= ms);
        assert(pre2.len() + rest.len() == pre.len() + spec_ser_markets(ms).len());
    }
}

/// Serializing a normalized response and parsing the bytes again gives
/// back exactly the serialized value.
pub proof fn lemma_rt_response(ms: Seq<MarketModel>)
    requires
        forall|i: int| 0 <= i < ms.len() ==> spec_is_decimal((#[trigger] ms[i]).yes_price),
    ensures
        spec_parse_response(spec_ser_response(ms)) == Some(ms),
{
    let s = spec_ser_response(ms);
    let smk = spec_ser_markets(ms);
    let lb = seq![LBRACE];
    let rb = seq![RBRACE];
    let colon = seq![COLON];
    let pre1 = lb;
    let pre2 = pre1 + tok_markets() + colon;
    let pre3 = pre2 + smk;

    // `{`
    assert(s[0] == LBRACE);
    assert(spec_skip_ws(s, 0) == 0);
    assert(spec_expect_byte(s, 0, LBRACE) == Some(1int));

    // `"markets":`
    lemma_concat_associative(pre2, smk, rb);
    lemma_rt_member(pre1, tok_markets(), smk + rb);
    assert(spec_member(s, pre1.len() as int, tok_markets()) == Some(pre2.len() as int));

    // the market list
    lemma_rt_out_markets(ms, pre2, rb);
    assert(spec_parse_out_markets(s, pre2.len() as int) == Some((ms, pre3.len() as int)));

    // `}` and the end of the document
    assert(s[pre3.len() as int] == RBRACE);
    assert(spec_skip_ws(s, pre3.len() as int) == pre3.len() as int);
    assert(spec_expect_byte(s, pre3.len() as int, RBRACE) == Some(pre3.len() + 1 as int));
    assert(pre3.len() + 1 == s.len());
    assert(spec_skip_ws(s, s.len() as int) == s.len() as int);
}

/// Whatever parses as a normalized response is forwarded as the same
/// logical value: parsing the re-serialized bytes gives it back exactly.
pub proof fn lemma_tally_round_trip(b: Seq<u8>)
    ensures
        (spec_parse_response(b) matches Some(ms) ==> spec_parse_response(spec_ser_response(ms))
            == Some(ms)),
{
    if let Some(ms) = spec_parse_response(b) {
        lemma_response_decimal(b);
        lemma_rt_response(ms);
    }
}

proof fn lemma_normalize_decimal(ms: Seq<RawMarketModel>, k: int)
    requires
        0 <= k <= ms.len(),
    ensures
        (spec_normalize_from(ms, k) matches Ok(out) ==> forall|i: int|
            0 <= i < out.len() ==> spec_is_decimal((#[trigger] out[i]).yes_price)),
    decreases ms.len() - k,
{
    if k < ms.len() {
        lemma_normalize_decimal(ms, k + 1);
    }
}

/// A successful execution emits bytes that the tally phase accepts: they
/// parse back as exactly the normalized value that was serialized.
pub proof fn lemma_execution_output_validates(ok: bool, body: Seq<u8>)
    ensures
        (spec_execution(ok, body) matches Ok(out) ==> ({
            &&& spec_parse_event(body) matches Some(ev)
            &&& spec_normalize_markets(ev.markets) matches Ok(ms)
            &&& spec_parse_response(out) == Some(ms)
        })),
{
    if ok {
        if let Some(ev) = spec_parse_event(body) {
            lemma_normalize_decimal(ev.markets, 0);
            if let Ok(ms) = spec_normalize_markets(ev.markets) {
                lemma_rt_response(ms);
            }
        }
    }
}

/// A successful tally forwards bytes that mean exactly what the sole
/// reveal meant: both parse to the same normalized value.
pub proof fn lemma_tally_preserves_value(reveals: Seq<Seq<u8>>)
    ensures
        (spec_tally(reveals) matches Ok(out) ==> reveals.len() == 1 && spec_parse_response(out)
            == spec_parse_response(reveals[0])),
{
    if reveals.len() == 1 {
        lemma_tally_round_trip(reveals[0]);
    }
}

} // verus!
