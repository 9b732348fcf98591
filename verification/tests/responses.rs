//! The response side: JSON parsing, the envelope, and typed outputs.

use mexc::decimal::Decimal;
use mexc::json::{json_to_bytes, parse_json, Json};
use mexc::v3::account_information::{
    parse_account_information_response, AccountBalance, AccountInformationOutput,
};
use mexc::v3::enums::{OrderSide, OrderType};
use mexc::v3::order::{parse_order_response, OrderOutput};
use mexc::v3::{ApiError, ApiV3Error};

fn dec(negative: bool, unscaled: u128, scale: u32) -> Decimal {
    Decimal { negative, unscaled, scale }
}

fn account_info_body() -> Vec<u8> {
    let mut body = String::new();
    body.push_str("{\"makerCommission\":15,\"takerCommission\":15,");
    body.push_str("\"buyerCommission\":0,\"sellerCommission\":0,");
    body.push_str("\"canTrade\":true,\"canWithdraw\":true,\"canDeposit\":false,");
    body.push_str("\"updateTime\":1499827319559,\"accountType\":\"SPOT\",");
    body.push_str("\"balances\":[");
    body.push_str("{\"asset\":\"BTC\",\"free\":\"4723846.89208129\",\"locked\":\"0.00000000\"},");
    body.push_str("{\"asset\":\"LTC\",\"free\":4763368.68006011,\"locked\":0.5}");
    body.push_str("],");
    body.push_str("\"permissions\":[\"SPOT\"]}");
    body.into_bytes()
}

#[test]
fn account_information_success_parses_two_balances_exactly() {
    let out = parse_account_information_response(&account_info_body()).unwrap();
    assert_eq!(out.maker_commission, dec(false, 15, 0));
    assert_eq!(out.taker_commission, dec(false, 15, 0));
    assert_eq!(out.buyer_commission, dec(false, 0, 0));
    assert_eq!(out.seller_commission, dec(false, 0, 0));
    assert!(out.can_trade);
    assert!(out.can_withdraw);
    assert!(!out.can_deposit);
    assert_eq!(out.update_time, Some(1499827319559));
    assert_eq!(out.account_type, b"SPOT".to_vec());
    assert_eq!(out.permissions, vec![b"SPOT".to_vec()]);
    assert_eq!(out.balances.len(), 2);
    assert_eq!(
        out.balances[0],
        AccountBalance {
            asset: b"BTC".to_vec(),
            free: dec(false, 472384689208129, 8),
            locked: dec(false, 0, 8),
        }
    );
    assert_eq!(
        out.balances[1],
        AccountBalance {
            asset: b"LTC".to_vec(),
            free: dec(false, 476336868006011, 8),
            locked: dec(false, 5, 1),
        }
    );
}

#[test]
fn account_information_null_update_time_is_absent() {
    let body = String::from_utf8(account_info_body())
        .unwrap()
        .replace("\"updateTime\":1499827319559", "\"updateTime\":null");
    let out = parse_account_information_response(&body.into_bytes()).unwrap();
    assert_eq!(out.update_time, None);
}

#[test]
fn order_error_response_is_an_api_error_not_a_deserialization_error() {
    let body = b"{\"code\": -2010, \"msg\": \"Insufficient balance\"}".to_vec();
    let err = parse_order_response(&body).unwrap_err();
    assert_eq!(
        err,
        ApiV3Error::Api(ApiError { code: -2010, msg: b"Insufficient balance".to_vec() })
    );
}

#[test]
fn account_error_response_is_an_api_error_too() {
    let body = b"{\"code\":700002,\"msg\":\"Signature for this request is not valid.\"}".to_vec();
    let err = parse_account_information_response(&body).unwrap_err();
    assert_eq!(
        err,
        ApiV3Error::Api(ApiError {
            code: 700002,
            msg: b"Signature for this request is not valid.".to_vec(),
        })
    );
}

#[test]
fn truncated_bodies_fail_with_the_deserialization_kind() {
    let mut truncated = account_info_body();
    truncated.truncate(truncated.len() / 2);
    for body in [truncated, Vec::new(), b"{\"symbol\":".to_vec(), b"nul".to_vec()] {
        assert_eq!(
            parse_account_information_response(&body).unwrap_err(),
            ApiV3Error::Deserialization
        );
        assert_eq!(parse_order_response(&body).unwrap_err(), ApiV3Error::Deserialization);
    }
}

#[test]
fn wrong_shape_fails_with_the_deserialization_kind() {
    for body in [b"[1,2,3]".to_vec(), b"{\"symbol\":\"KASUSDT\"}".to_vec(), b"42".to_vec()] {
        assert_eq!(parse_order_response(&body).unwrap_err(), ApiV3Error::Deserialization);
    }
}

fn order_output_body() -> Vec<u8> {
    let mut body = String::new();
    body.push_str("{\"symbol\":\"KASUSDT\",\"orderId\":\"C02__443776347957968896\",");
    body.push_str("\"orderListId\":null,\"price\":\"0.00001\",\"origQty\":\"1\",");
    body.push_str("\"type\":\"LIMIT\",\"side\":\"BUY\",\"transactTime\":1499827319}");
    body.into_bytes()
}

#[test]
fn order_success_parses_every_field_exactly() {
    let out = parse_order_response(&order_output_body()).unwrap();
    assert_eq!(
        out,
        OrderOutput {
            symbol: b"KASUSDT".to_vec(),
            order_id: b"C02__443776347957968896".to_vec(),
            order_list_id: None,
            price: dec(false, 1, 5),
            orig_qty: dec(false, 1, 0),
            order_type: OrderType::Limit,
            side: OrderSide::Buy,
            transact_time: 1499827319,
        }
    );
}

#[test]
fn account_information_round_trips_through_bytes() {
    let out = parse_account_information_response(&account_info_body()).unwrap();
    let bytes = json_to_bytes(&out.to_json());
    let again = parse_account_information_response(&bytes).unwrap();
    assert_eq!(out, again);
}

#[test]
fn order_output_round_trips_through_bytes() {
    let out = parse_order_response(&order_output_body()).unwrap();
    let bytes = json_to_bytes(&out.to_json());
    let again = parse_order_response(&bytes).unwrap();
    assert_eq!(out, again);
}

#[test]
fn string_typed_decimal_fields_parse_to_the_exact_value() {
    let mut body = String::new();
    body.push_str("{\"makerCommission\":\"0.002\",\"takerCommission\":\"0.002\",");
    body.push_str("\"buyerCommission\":\"0\",\"sellerCommission\":\"0\",");
    body.push_str("\"canTrade\":true,\"canWithdraw\":true,\"canDeposit\":true,");
    body.push_str("\"updateTime\":null,\"accountType\":\"SPOT\",");
    body.push_str("\"balances\":[{\"asset\":\"BTC\",\"free\":\"1.5\",\"locked\":\"0.5\"},");
    body.push_str("{\"asset\":\"USDT\",\"free\":\"100\",\"locked\":\"0\"}],");
    body.push_str("\"permissions\":[\"SPOT\"]}");
    let out = parse_account_information_response(&body.into_bytes()).unwrap();
    assert_eq!(out.maker_commission, dec(false, 2, 3));
    assert_eq!(out.update_time, None);
    assert_eq!(out.balances.len(), 2);
    assert_eq!(
        out.balances[0],
        AccountBalance { asset: b"BTC".to_vec(), free: dec(false, 15, 1), locked: dec(false, 5, 1) }
    );
    assert_eq!(
        out.balances[1],
        AccountBalance { asset: b"USDT".to_vec(), free: dec(false, 100, 0), locked: dec(false, 0, 0) }
    );
}

#[test]
fn non_canonical_string_decimals_are_rejected() {
    for v in ["\"007\"", "\"1e5\"", "\"\"", "\" 1\""] {
        let body = format!("{{\"code\":1,\"msgx\":2,\"symbol\":\"A\",\"orderId\":\"1\",\"orderListId\":null,\"price\":{},\"origQty\":1,\"type\":\"LIMIT\",\"side\":\"BUY\",\"transactTime\":1}}", v);
        assert_eq!(parse_order_response(&body.into_bytes()).unwrap_err(), ApiV3Error::Deserialization, "{v}");
    }
}

#[test]
fn parser_accepts_whitespace_and_rejects_trailing_garbage() {
    assert!(parse_json(&b" { \"a\" : [ 1 , true , null ] } ".to_vec()).is_some());
    assert!(parse_json(&b"{} trailing".to_vec()).is_none());
    assert!(parse_json(&b"{\"a\":1e5}".to_vec()).is_none());
}

#[test]
fn serializer_writes_canonical_bytes() {
    let j = Json::Obj(vec![
        (b"a".to_vec(), Json::Arr(vec![Json::Num(dec(true, 5, 1)), Json::Bool(false)])),
        (b"b".to_vec(), Json::Str(b"x".to_vec())),
    ]);
    assert_eq!(json_to_bytes(&j), b"{\"a\":[-0.5,false],\"b\":\"x\"}".to_vec());
}
