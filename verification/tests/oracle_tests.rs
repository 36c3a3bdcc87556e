use polymarket_oracle::json::is_decimal;
use polymarket_oracle::pipeline::{
    build_request_url, execution_result, normalize_markets, tally_result, PipelineError,
};
use polymarket_oracle::schema::{
    parse_event, parse_price_array, parse_response, serialize_response, Market, PolyMarketMarket,
    Response,
};

fn market(outcome_prices: &str, title: &str, closed: bool) -> PolyMarketMarket {
    PolyMarketMarket {
        outcome_prices: outcome_prices.as_bytes().to_vec(),
        group_item_title: title.as_bytes().to_vec(),
        closed,
    }
}

// ---------------------------------------------------------------------------
// Request construction
// ---------------------------------------------------------------------------

#[test]
fn builds_url_from_event_slug() {
    let url = build_request_url(br#"{"event_slug":"will-x-happen"}"#).unwrap();
    assert_eq!(
        url,
        b"https://gamma-api.polymarket.com/events/slug/will-x-happen".to_vec()
    );
}

#[test]
fn input_with_whitespace_is_accepted() {
    let url = build_request_url(b"  { \"event_slug\" : \"abc\" }  ").unwrap();
    assert_eq!(url, b"https://gamma-api.polymarket.com/events/slug/abc".to_vec());
}

#[test]
fn malformed_input_is_input_format_error() {
    let r = build_request_url(b"not json at all");
    assert!(matches!(r, Err(PipelineError::InputFormat)));
}

#[test]
fn input_with_extra_members_is_accepted() {
    let url = build_request_url(br#"{"version":2,"event_slug":"a-b","note":"\u2713"}"#).unwrap();
    assert_eq!(url, b"https://gamma-api.polymarket.com/events/slug/a-b".to_vec());
}

#[test]
fn input_with_trailing_garbage_is_rejected() {
    let r = build_request_url(br#"{"event_slug":"a"}x"#);
    assert!(matches!(r, Err(PipelineError::InputFormat)));
}

// ---------------------------------------------------------------------------
// The worked example of the execution phase
// ---------------------------------------------------------------------------

#[test]
fn example_event_normalizes_to_expected_bytes() {
    let body = br#"{"closed":false,"markets":[{"outcomePrices":"[\"0.65\",\"0.35\"]","groupItemTitle":"Yes/No","closed":false}]}"#;
    let out = execution_result(true, body).unwrap();
    assert_eq!(
        out,
        br#"{"markets":[{"yes_price":"0.65","closed":false}]}"#.to_vec()
    );
}

#[test]
fn example_event_without_markets_is_terminal_error() {
    let body = br#"{"closed":false,"markets":[]}"#;
    let r = execution_result(true, body);
    assert!(matches!(r, Err(PipelineError::NoMarkets)));
}

#[test]
fn two_markets_produce_two_entries_in_order() {
    let body = br#"{"closed":true,"markets":[{"outcomePrices":"[\"0.1\",\"0.9\"]","groupItemTitle":"A","closed":false},{"outcomePrices":"[\"0.8\"]","groupItemTitle":"B","closed":true}]}"#;
    let out = execution_result(true, body).unwrap();
    assert_eq!(
        out,
        br#"{"markets":[{"yes_price":"0.1","closed":false},{"yes_price":"0.8","closed":true}]}"#
            .to_vec()
    );
}

#[test]
fn event_with_whitespace_between_tokens_parses() {
    let body = b"{ \"closed\" : false ,\n \"markets\" : [ { \"outcomePrices\" : \"[\\\"0.5\\\"]\" , \"groupItemTitle\" : \"T\" , \"closed\" : true } ] }";
    let out = execution_result(true, body).unwrap();
    assert_eq!(out, br#"{"markets":[{"yes_price":"0.5","closed":true}]}"#.to_vec());
}

// ---------------------------------------------------------------------------
// The error cases of the execution phase
// ---------------------------------------------------------------------------

#[test]
fn failed_http_status_is_terminal_whatever_the_body() {
    let good_body = br#"{"closed":false,"markets":[{"outcomePrices":"[\"0.65\"]","groupItemTitle":"T","closed":false}]}"#;
    let r = execution_result(false, good_body);
    assert!(matches!(r, Err(PipelineError::HttpNotOk)));
    let r2 = execution_result(false, b"");
    assert!(matches!(r2, Err(PipelineError::HttpNotOk)));
}

#[test]
fn schema_mismatch_is_event_format_error() {
    assert!(matches!(execution_result(true, b"{}"), Err(PipelineError::EventFormat)));
    assert!(matches!(execution_result(true, b""), Err(PipelineError::EventFormat)));
    // a missing member is a schema mismatch
    let missing = br#"{"closed":false}"#;
    assert!(matches!(execution_result(true, missing), Err(PipelineError::EventFormat)));
    // a repeated member is a schema mismatch
    let duplicate = br#"{"closed":false,"closed":true,"markets":[]}"#;
    assert!(matches!(execution_result(true, duplicate), Err(PipelineError::EventFormat)));
    // trailing bytes after the document are a schema mismatch
    let trailing = br#"{"closed":false,"markets":[]}x"#;
    assert!(matches!(execution_result(true, trailing), Err(PipelineError::EventFormat)));
}

#[test]
fn event_members_may_come_in_any_order() {
    let swapped = br#"{"markets":[{"closed":true,"outcomePrices":"[\"0.3\"]","groupItemTitle":"T"}],"closed":false}"#;
    let out = execution_result(true, swapped).unwrap();
    assert_eq!(out, br#"{"markets":[{"yes_price":"0.3","closed":true}]}"#.to_vec());
}

#[test]
fn unknown_members_of_any_shape_are_skipped() {
    let body = br#"{"id":"123","closed":false,"description":"a \u00e9 b","volume":12.5e3,"tags":["x",{"y":[1,2]}],"ended":null,"markets":[{"slug":"m1","outcomePrices":"[\"0.9\"]","liquidity":0.0,"groupItemTitle":"T","closed":false,"nested":{"a":{"b":[]}}}],"featured":true}"#;
    let out = execution_result(true, body).unwrap();
    assert_eq!(out, br#"{"markets":[{"yes_price":"0.9","closed":false}]}"#.to_vec());
}

#[test]
fn unicode_escape_in_a_read_value_is_rejected() {
    // unicode escapes are tolerated only inside skipped members
    let body = br#"{"closed":false,"markets":[{"outcomePrices":"[]","groupItemTitle":"a\u0041","closed":false}]}"#;
    assert!(matches!(execution_result(true, body), Err(PipelineError::EventFormat)));
}

#[test]
fn outcome_prices_not_an_array_fails_naming_the_market() {
    let ms = vec![market("not json", "Broken", false)];
    let r = normalize_markets(&ms);
    match r {
        Err(PipelineError::OutcomePricesFormat { market }) => {
            assert_eq!(market, b"Broken".to_vec());
        },
        _ => panic!("expected an outcome-prices format error"),
    }
}

#[test]
fn empty_outcome_prices_fails_naming_the_market() {
    let ms = vec![market("[]", "Empty", true)];
    let r = normalize_markets(&ms);
    match r {
        Err(PipelineError::NoOutcomePrices { market }) => {
            assert_eq!(market, b"Empty".to_vec());
        },
        _ => panic!("expected a no-outcome-prices error"),
    }
}

#[test]
fn non_decimal_first_price_fails_naming_the_market() {
    let ms = vec![market("[\"abc\",\"0.5\"]", "Bad", false)];
    let r = normalize_markets(&ms);
    match r {
        Err(PipelineError::InvalidPrice { market }) => {
            assert_eq!(market, b"Bad".to_vec());
        },
        _ => panic!("expected an invalid-price error"),
    }
}

#[test]
fn strict_policy_one_empty_market_fails_the_whole_operation() {
    let ms = vec![market("[\"0.4\"]", "Good", false), market("[]", "Empty", false)];
    let r = normalize_markets(&ms);
    assert!(matches!(r, Err(PipelineError::NoOutcomePrices { .. })));
}

#[test]
fn escaped_title_is_decoded_in_the_error() {
    // the title "A\"B" decodes to the three bytes A, ", B
    let body = br#"{"closed":false,"markets":[{"outcomePrices":"[]","groupItemTitle":"A\"B","closed":false}]}"#;
    let r = execution_result(true, body);
    match r {
        Err(PipelineError::NoOutcomePrices { market }) => {
            assert_eq!(market, b"A\"B".to_vec());
        },
        _ => panic!("expected a no-outcome-prices error"),
    }
}

// ---------------------------------------------------------------------------
// The double-encoded price array
// ---------------------------------------------------------------------------

#[test]
fn price_array_parses_strings() {
    let v = parse_price_array(br#"["0.65","0.35"]"#).unwrap();
    assert_eq!(v, vec![b"0.65".to_vec(), b"0.35".to_vec()]);
}

#[test]
fn price_array_empty_is_empty() {
    let v = parse_price_array(b"[]").unwrap();
    assert!(v.is_empty());
}

#[test]
fn price_array_of_numbers_is_rejected() {
    assert!(parse_price_array(b"[0.65]").is_none());
    assert!(parse_price_array(b"").is_none());
    assert!(parse_price_array(br#"["a" "b"]"#).is_none());
}

// ---------------------------------------------------------------------------
// Decimal numbers
// ---------------------------------------------------------------------------

#[test]
fn decimal_grammar_accepts_numbers() {
    assert!(is_decimal(b"0.65"));
    assert!(is_decimal(b"0"));
    assert!(is_decimal(b"-1.5"));
    assert!(is_decimal(b"12e3"));
    assert!(is_decimal(b"1.25E-10"));
    assert!(is_decimal(b"-0.5e+2"));
}

#[test]
fn decimal_grammar_rejects_non_numbers() {
    assert!(!is_decimal(b""));
    assert!(!is_decimal(b"-"));
    assert!(!is_decimal(b".5"));
    assert!(!is_decimal(b"1."));
    assert!(!is_decimal(b"1e"));
    assert!(!is_decimal(b"1e+"));
    assert!(!is_decimal(b"abc"));
    assert!(!is_decimal(b"0.65 "));
    assert!(!is_decimal(b"+1"));
    assert!(!is_decimal(b"1.2.3"));
}

// ---------------------------------------------------------------------------
// The tally phase
// ---------------------------------------------------------------------------

#[test]
fn zero_reveals_is_a_cardinality_error() {
    let r = tally_result(&vec![]);
    match r {
        Err(PipelineError::WrongRevealCount { count }) => assert_eq!(count, 0),
        _ => panic!("expected a reveal-count error"),
    }
}

#[test]
fn two_reveals_are_a_cardinality_error_whatever_they_hold() {
    let good = br#"{"markets":[{"yes_price":"0.65","closed":false}]}"#.to_vec();
    let r = tally_result(&vec![good.clone(), good]);
    match r {
        Err(PipelineError::WrongRevealCount { count }) => assert_eq!(count, 2),
        _ => panic!("expected a reveal-count error"),
    }
}

#[test]
fn single_valid_reveal_is_forwarded_byte_for_byte() {
    let reveal = br#"{"markets":[{"yes_price":"0.65","closed":false}]}"#.to_vec();
    let out = tally_result(&vec![reveal.clone()]).unwrap();
    assert_eq!(out, reveal);
}

#[test]
fn reveal_with_whitespace_is_forwarded_as_the_same_value() {
    let reveal = b"{ \"markets\" : [ { \"yes_price\" : \"0.65\" , \"closed\" : true } ] }".to_vec();
    let out = tally_result(&vec![reveal]).unwrap();
    assert_eq!(out, br#"{"markets":[{"yes_price":"0.65","closed":true}]}"#.to_vec());
    // the forwarded bytes parse back to the same value
    let parsed = parse_response(&out).unwrap();
    assert_eq!(parsed.markets.len(), 1);
    assert_eq!(parsed.markets[0].yes_price, b"0.65".to_vec());
    assert!(parsed.markets[0].closed);
}

#[test]
fn empty_market_list_reveal_round_trips() {
    let reveal = br#"{"markets":[]}"#.to_vec();
    let out = tally_result(&vec![reveal.clone()]).unwrap();
    assert_eq!(out, reveal);
}

#[test]
fn malformed_reveal_is_a_format_error() {
    assert!(matches!(
        tally_result(&vec![b"junk".to_vec()]),
        Err(PipelineError::RevealFormat)
    ));
    // a price that is not a decimal string does not follow the schema
    let bad_price = br#"{"markets":[{"yes_price":"abc","closed":false}]}"#.to_vec();
    assert!(matches!(
        tally_result(&vec![bad_price]),
        Err(PipelineError::RevealFormat)
    ));
    // event-schema bytes are not response-schema bytes
    let event = br#"{"closed":false,"markets":[]}"#.to_vec();
    assert!(matches!(
        tally_result(&vec![event]),
        Err(PipelineError::RevealFormat)
    ));
}

// ---------------------------------------------------------------------------
// Parsing and serializing directly
// ---------------------------------------------------------------------------

#[test]
fn parse_event_reads_all_fields() {
    let body = br#"{"closed":true,"markets":[{"outcomePrices":"[\"0.2\"]","groupItemTitle":"T1","closed":false}]}"#;
    let ev = parse_event(body).unwrap();
    assert!(ev.closed);
    assert_eq!(ev.markets.len(), 1);
    assert_eq!(ev.markets[0].outcome_prices, b"[\"0.2\"]".to_vec());
    assert_eq!(ev.markets[0].group_item_title, b"T1".to_vec());
    assert!(!ev.markets[0].closed);
}

#[test]
fn parse_event_skips_extra_members() {
    let body = br#"{"closed":false,"markets":[],"extra":1}"#;
    let ev = parse_event(body).unwrap();
    assert!(!ev.closed);
    assert!(ev.markets.is_empty());
}

#[test]
fn serializer_emits_the_exact_compact_form() {
    let resp = Response {
        markets: vec![
            Market { yes_price: b"0.65".to_vec(), closed: false },
            Market { yes_price: b"1e-3".to_vec(), closed: true },
        ],
    };
    let out = serialize_response(&resp);
    assert_eq!(
        out,
        br#"{"markets":[{"yes_price":"0.65","closed":false},{"yes_price":"1e-3","closed":true}]}"#
            .to_vec()
    );
}

#[test]
fn serializer_and_parser_round_trip_an_empty_response() {
    let resp = Response { markets: vec![] };
    let out = serialize_response(&resp);
    assert_eq!(out, br#"{"markets":[]}"#.to_vec());
    let parsed = parse_response(&out).unwrap();
    assert!(parsed.markets.is_empty());
}
