//! The fixed tokens of the two JSON schemas: quoted member keys and the
//! boolean literals. Each token has a spec-level byte sequence and an
//! executable accessor proved to hand back exactly those bytes.

use vstd::prelude::*;
use vstd::string::StringSliceAdditionalSpecFns;

verus! {

/// `"closed"`, quotes included.
pub open spec fn tok_closed() -> Seq<u8> {
    seq![34u8, 99u8, 108u8, 111u8, 115u8, 101u8, 100u8, 34u8]
}

/// `"markets"`, quotes included.
pub open spec fn tok_markets() -> Seq<u8> {
    seq![34u8, 109u8, 97u8, 114u8, 107u8, 101u8, 116u8, 115u8, 34u8]
}

/// `"yes_price"`, quotes included.
pub open spec fn tok_yes_price() -> Seq<u8> {
    seq![34u8, 121u8, 101u8, 115u8, 95u8, 112u8, 114u8, 105u8, 99u8, 101u8, 34u8]
}

/// `true`.
pub open spec fn tok_true() -> Seq<u8> {
    seq![116u8, 114u8, 117u8, 101u8]
}

/// `false`.
pub open spec fn tok_false() -> Seq<u8> {
    seq![102u8, 97u8, 108u8, 115u8, 101u8]
}

pub fn lit_closed() -> (r: &'static [u8])
    ensures
        r@ == tok_closed(),
{
    let b = "\"closed\"".as_bytes();
    proof {
        reveal_strlit("\"closed\"");
        assert(vstd::utf8::is_ascii_chars("\"closed\""@));
        vstd::utf8::is_ascii_chars_encode_utf8("\"closed\""@);
        assert(b@ =~= tok_closed());
    }
    b
}

pub fn lit_markets() -> (r: &'static [u8])
    ensures
        r@ == tok_markets(),
{
    let b = "\"markets\"".as_bytes();
    proof {
        reveal_strlit("\"markets\"");
        assert(vstd::utf8::is_ascii_chars("\"markets\""@));
        vstd::utf8::is_ascii_chars_encode_utf8("\"markets\""@);
        assert(b@ =~= tok_markets());
    }
    b
}

pub fn lit_yes_price() -> (r: &'static [u8])
    ensures
        r@ == tok_yes_price(),
{
    let b = "\"yes_price\"".as_bytes();
    proof {
        reveal_strlit("\"yes_price\"");
        assert(vstd::utf8::is_ascii_chars("\"yes_price\""@));
        vstd::utf8::is_ascii_chars_encode_utf8("\"yes_price\""@);
        assert(b@ =~= tok_yes_price());
    }
    b
}

pub fn lit_true() -> (r: &'static [u8])
    ensures
        r@ == tok_true(),
{
    let b = "true".as_bytes();
    proof {
        reveal_strlit("true");
        assert(vstd::utf8::is_ascii_chars("true"@));
        vstd::utf8::is_ascii_chars_encode_utf8("true"@);
        assert(b@ =~= tok_true());
    }
    b
}

pub fn lit_false() -> (r: &'static [u8])
    ensures
        r@ == tok_false(),
{
    let b = "false".as_bytes();
    proof {
        reveal_strlit("false");
        assert(vstd::utf8::is_ascii_chars("false"@));
        vstd::utf8::is_ascii_chars_encode_utf8("false"@);
        assert(b@ =~= tok_false());
    }
    b
}

/// The fixed part of the upstream request: the event is addressed by its
/// slug under this path.
pub open spec fn url_prefix() -> Seq<u8> {
    "https://gamma-api.polymarket.com/events/slug/".spec_bytes()
}

pub fn lit_url_prefix() -> (r: &'static [u8])
    ensures
        r@ == url_prefix(),
{
    "https://gamma-api.polymarket.com/events/slug/".as_bytes()
}

/// `closed`, the member key without its quotes.
pub open spec fn key_closed() -> Seq<u8> {
    seq![99u8, 108u8, 111u8, 115u8, 101u8, 100u8]
}

/// `markets`, the member key without its quotes.
pub open spec fn key_markets() -> Seq<u8> {
    seq![109u8, 97u8, 114u8, 107u8, 101u8, 116u8, 115u8]
}

/// `outcomePrices`, the member key without its quotes.
pub open spec fn key_outcome_prices() -> Seq<u8> {
    seq![111u8, 117u8, 116u8, 99u8, 111u8, 109u8, 101u8, 80u8, 114u8, 105u8, 99u8, 101u8, 115u8]
}

/// `groupItemTitle`, the member key without its quotes.
pub open spec fn key_group_item_title() -> Seq<u8> {
    seq![
        103u8,
        114u8,
        111u8,
        117u8,
        112u8,
        73u8,
        116u8,
        101u8,
        109u8,
        84u8,
        105u8,
        116u8,
        108u8,
        101u8,
    ]
}

/// `event_slug`, the member key without its quotes.
pub open spec fn key_event_slug() -> Seq<u8> {
    seq![101u8, 118u8, 101u8, 110u8, 116u8, 95u8, 115u8, 108u8, 117u8, 103u8]
}

pub fn lit_key_closed() -> (r: &'static [u8])
    ensures
        r@ == key_closed(),
{
    let b = "closed".as_bytes();
    proof {
        reveal_strlit("closed");
        assert(vstd::utf8::is_ascii_chars("closed"@));
        vstd::utf8::is_ascii_chars_encode_utf8("closed"@);
        assert(b@ =~= key_closed());
    }
    b
}

pub fn lit_key_markets() -> (r: &'static [u8])
    ensures
        r@ == key_markets(),
{
    let b = "markets".as_bytes();
    proof {
        reveal_strlit("markets");
        assert(vstd::utf8::is_ascii_chars("markets"@));
        vstd::utf8::is_ascii_chars_encode_utf8("markets"@);
        assert(b@ =~= key_markets());
    }
    b
}

pub fn lit_key_outcome_prices() -> (r: &'static [u8])
    ensures
        r@ == key_outcome_prices(),
{
    let b = "outcomePrices".as_bytes();
    proof {
        reveal_strlit("outcomePrices");
        assert(vstd::utf8::is_ascii_chars("outcomePrices"@));
        vstd::utf8::is_ascii_chars_encode_utf8("outcomePrices"@);
        assert(b@ =~= key_outcome_prices());
    }
    b
}

pub fn lit_key_group_item_title() -> (r: &'static [u8])
    ensures
        r@ == key_group_item_title(),
{
    let b = "groupItemTitle".as_bytes();
    proof {
        reveal_strlit("groupItemTitle");
        assert(vstd::utf8::is_ascii_chars("groupItemTitle"@));
        vstd::utf8::is_ascii_chars_encode_utf8("groupItemTitle"@);
        assert(b@ =~= key_group_item_title());
    }
    b
}

pub fn lit_key_event_slug() -> (r: &'static [u8])
    ensures
        r@ == key_event_slug(),
{
    let b = "event_slug".as_bytes();
    proof {
        reveal_strlit("event_slug");
        assert(vstd::utf8::is_ascii_chars("event_slug"@));
        vstd::utf8::is_ascii_chars_encode_utf8("event_slug"@);
        assert(b@ =~= key_event_slug());
    }
    b
}

} // verus!
