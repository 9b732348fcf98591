//! The wire side: decimals, query strings, and signing.

use mexc::decimal::Decimal;
use mexc::query::encode_query;
use mexc::sign::{hex_encode, sign_query, signature_of};
use mexc::v3::account_information::AccountInformationQuery;
use mexc::v3::enums::{OrderSide, OrderType};
use mexc::v3::order::{OrderParams, OrderQuery};
use mexc::MexcApiEndpoint;

fn dec(negative: bool, unscaled: u128, scale: u32) -> Decimal {
    Decimal { negative, unscaled, scale }
}

#[test]
fn decimal_parses_small_fraction_exactly() {
    let d = Decimal::from_bytes(&b"0.00001".to_vec()).unwrap();
    assert_eq!(d, dec(false, 1, 5));
    assert_eq!(d.to_bytes(), b"0.00001".to_vec());
}

#[test]
fn decimal_round_trips_assorted_values() {
    for s in [
        "0", "1", "-1", "-2010", "4723846.89208129", "0.00000000", "123456789.000000001",
        "-0.5",
    ] {
        let d = Decimal::from_bytes(&s.as_bytes().to_vec()).unwrap();
        assert_eq!(d.to_bytes(), s.as_bytes().to_vec());
    }
}

#[test]
fn decimal_rejects_malformed_numbers() {
    for s in ["", "-", ".", "1.", ".5", "1e5", "1.2.3", "+1", "12a", "--1"] {
        assert!(Decimal::from_bytes(&s.as_bytes().to_vec()).is_none(), "{s}");
    }
}

#[test]
fn decimal_integer_conversions() {
    assert_eq!(Decimal::from_i64(-2010).to_bytes(), b"-2010".to_vec());
    assert_eq!(Decimal::from_u64(60000).to_bytes(), b"60000".to_vec());
    assert_eq!(dec(true, 2010, 0).to_i64(), Some(-2010));
    assert_eq!(dec(false, 1, 5).to_i64(), None);
}

#[test]
fn hex_encoding_is_lowercase_two_digits_per_byte() {
    assert_eq!(hex_encode(&vec![0x00, 0x0f, 0xa5, 0xff]), b"000fa5ff".to_vec());
}

#[test]
fn hmac_signature_matches_published_test_vector() {
    // RFC 4231-style vector: HMAC-SHA256("Jefe", "what do ya want for nothing?").
    let sig = signature_of(&b"Jefe".to_vec(), &b"what do ya want for nothing?".to_vec());
    assert_eq!(
        sig,
        b"5bdcc146bf60754e6a042426089575c75a003f089d2739839dec58b964ec3843".to_vec()
    );
}

#[test]
fn query_string_joins_pairs_and_percent_encodes() {
    let pairs = vec![
        (b"symbol".to_vec(), b"KASUSDT".to_vec()),
        (b"note".to_vec(), b"a b/c".to_vec()),
    ];
    assert_eq!(encode_query(&pairs), b"symbol=KASUSDT&note=a%20b%2Fc".to_vec());
}

#[test]
fn signing_is_deterministic_and_sensitive_to_every_field() {
    let secret = b"SECRET-REDACTED".to_vec();
    let pairs = vec![
        (b"symbol".to_vec(), b"KASUSDT".to_vec()),
        (b"timestamp".to_vec(), b"1499827319559".to_vec()),
    ];
    let once = sign_query(&pairs, &secret);
    let twice = sign_query(&pairs, &secret);
    assert_eq!(once, twice);

    let mut other_value = pairs.clone();
    other_value[0].1 = b"BTCUSDT".to_vec();
    assert_ne!(sign_query(&other_value, &secret), once);

    let mut other_key = pairs.clone();
    other_key[1].0 = b"recvWindow".to_vec();
    assert_ne!(sign_query(&other_key, &secret), once);

    assert_ne!(sign_query(&pairs, &b"other-secret".to_vec()), once);
}

#[test]
fn signed_query_appends_signature_over_exact_bytes() {
    let secret = b"SECRET-REDACTED".to_vec();
    let pairs = vec![(b"timestamp".to_vec(), b"1499827319559".to_vec())];
    let qs = encode_query(&pairs);
    let sig = signature_of(&secret, &qs);
    let mut expected = qs.clone();
    expected.extend_from_slice(b"&signature=");
    expected.extend_from_slice(&sig);
    assert_eq!(sign_query(&pairs, &secret), expected);
    assert_eq!(sig.len(), 64);
}

#[test]
fn account_query_omits_absent_receive_window() {
    let q = AccountInformationQuery { recv_window: None, timestamp: 1499827319559 };
    let pairs = q.to_pairs();
    assert_eq!(pairs, vec![(b"timestamp".to_vec(), b"1499827319559".to_vec())]);

    let q2 = AccountInformationQuery { recv_window: Some(5000), timestamp: 1499827319559 };
    let pairs2 = q2.to_pairs();
    assert_eq!(
        pairs2,
        vec![
            (b"recvWindow".to_vec(), b"5000".to_vec()),
            (b"timestamp".to_vec(), b"1499827319559".to_vec()),
        ]
    );
}

#[test]
fn order_query_omits_every_absent_optional_field() {
    let params = OrderParams {
        symbol: b"KASUSDT".to_vec(),
        side: OrderSide::Buy,
        order_type: OrderType::Market,
        quantity: None,
        quote_order_quantity: None,
        price: None,
        new_client_order_id: None,
    };
    let q = OrderQuery::from_params(params, 1499827319);
    let pairs = q.to_pairs();
    let keys: Vec<Vec<u8>> = pairs.iter().map(|p| p.0.clone()).collect();
    assert_eq!(
        keys,
        vec![b"symbol".to_vec(), b"side".to_vec(), b"type".to_vec(), b"timestamp".to_vec()]
    );
}

#[test]
fn order_query_carries_present_optional_fields_in_wire_order() {
    let params = OrderParams {
        symbol: b"KASUSDT".to_vec(),
        side: OrderSide::Buy,
        order_type: OrderType::Limit,
        quantity: Some(Decimal::from_u64(1)),
        quote_order_quantity: None,
        price: Some(Decimal { negative: false, unscaled: 1, scale: 5 }),
        new_client_order_id: Some(b"my-order-1".to_vec()),
    };
    let q = OrderQuery::from_params(params, 1499827319);
    let pairs = q.to_pairs();
    assert_eq!(
        pairs,
        vec![
            (b"symbol".to_vec(), b"KASUSDT".to_vec()),
            (b"side".to_vec(), b"BUY".to_vec()),
            (b"type".to_vec(), b"LIMIT".to_vec()),
            (b"quantity".to_vec(), b"1".to_vec()),
            (b"price".to_vec(), b"0.00001".to_vec()),
            (b"newClientOrderId".to_vec(), b"my-order-1".to_vec()),
            (b"timestamp".to_vec(), b"1499827319".to_vec()),
        ]
    );
}

#[test]
fn endpoint_urls_are_fixed_at_construction() {
    assert_eq!(MexcApiEndpoint::Base.as_ref(), "https://api.mexc.com");
    assert_ne!(MexcApiEndpoint::Test.as_ref(), MexcApiEndpoint::Base.as_ref());
}
