//! Order placement: typed parameters, the signed wire query, and the
//! typed output parsed from the response.

use vstd::prelude::*;
use vstd::string::StringSliceAdditionalSpecFns;
use vstd::string::is_ascii;
use crate::bytes::{str_bytes, copy_bytes};
use crate::decimal::{Decimal, spec_ser_dec, spec_dec_of_i64};
use crate::json::{Json, JsonV, spec_lookup, obj_get, obj_view, lemma_lookup_at};
use crate::sign::{spec_signed_query, sign_query};
use crate::v3::enums::{OrderSide, OrderType, spec_side_of, spec_order_type_of, side_of_bytes, order_type_of_bytes};
use crate::v3::{ApiResponse, ApiError, ApiV3Error, spec_envelope, envelope_error, spec_dec_value, dec_value};
use crate::json::{json_wf, spec_ser_json};

verus! {

/// Typed order parameters: the symbol, side and type, exactly one of
/// a base-asset quantity or a quote-asset order amount as the exchange
/// requires for the chosen type, an optional limit price, and an
/// optional client-supplied order id.
#[derive(Debug)]
pub struct OrderParams {
    pub symbol: Vec<u8>,
    pub side: OrderSide,
    pub order_type: OrderType,
    pub quantity: Option<Decimal>,
    pub quote_order_quantity: Option<Decimal>,
    pub price: Option<Decimal>,
    pub new_client_order_id: Option<Vec<u8>>,
}

/// The wire query of the endpoint: the parameters plus an optional
/// receive window and the request timestamp in seconds.
#[derive(Debug)]
pub struct OrderQuery {
    pub symbol: Vec<u8>,
    pub side: OrderSide,
    pub order_type: OrderType,
    pub quantity: Option<Decimal>,
    pub quote_order_quantity: Option<Decimal>,
    pub price: Option<Decimal>,
    pub new_client_order_id: Option<Vec<u8>>,
    /// At most 60000 milliseconds.
    pub recv_window: Option<u64>,
    pub timestamp: i64,
}

impl OrderQuery {
    /// Builds the wire query from typed parameters and the request
    /// timestamp; no receive window is set.
    pub fn from_params(params: OrderParams, timestamp: i64) -> (q: OrderQuery)
        ensures
            q.symbol@ == params.symbol@,
            q.side == params.side,
            q.order_type == params.order_type,
            q.quantity == params.quantity,
            q.quote_order_quantity == params.quote_order_quantity,
            q.price == params.price,
            match (q.new_client_order_id, params.new_client_order_id) {
                (Some(a), Some(b)) => a@ == b@,
                (None, None) => true,
                _ => false,
            },
            q.recv_window is None,
            q.timestamp == timestamp,
    {
        OrderQuery {
            symbol: params.symbol,
            side: params.side,
            order_type: params.order_type,
            quantity: params.quantity,
            quote_order_quantity: params.quote_order_quantity,
            price: params.price,
            new_client_order_id: params.new_client_order_id,
            recv_window: None,
            timestamp,
        }
    }

    /// Requests stay within the library's decimal bounds, and a
    /// receive window, when present, within the exchange's ceiling.
    pub open spec fn wf(&self) -> bool {
        &&& match self.recv_window {
            Some(w) => w <= crate::v3::RECV_WINDOW_MAX,
            None => true,
        }
        &&& match self.quantity {
            Some(d) => d.wf(),
            None => true,
        }
        &&& match self.quote_order_quantity {
            Some(d) => d.wf(),
            None => true,
        }
        &&& match self.price {
            Some(d) => d.wf(),
            None => true,
        }
    }

    /// The wire pairs, in wire order; every absent optional field is
    /// absent from the wire, never sent as empty or null.
    pub open spec fn spec_pairs(&self) -> Seq<(Seq<u8>, Seq<u8>)> {
        seq![
            ("symbol".spec_bytes(), self.symbol@),
            ("side".spec_bytes(), self.side.spec_word()),
            ("type".spec_bytes(), self.order_type.spec_word()),
        ] + opt_dec_pair("quantity".spec_bytes(), self.quantity)
            + opt_dec_pair("quoteOrderQty".spec_bytes(), self.quote_order_quantity)
            + opt_dec_pair("price".spec_bytes(), self.price)
            + (match self.new_client_order_id {
            Some(id) => seq![("newClientOrderId".spec_bytes(), id@)],
            None => Seq::<(Seq<u8>, Seq<u8>)>::empty(),
        }) + (match self.recv_window {
            Some(w) => seq![("recvWindow".spec_bytes(), spec_ser_dec(spec_dec_of_i64(w as int)))],
            None => Seq::<(Seq<u8>, Seq<u8>)>::empty(),
        }) + seq![("timestamp".spec_bytes(), spec_ser_dec(spec_dec_of_i64(self.timestamp as int)))]
    }

    #[verifier::rlimit(100)]
    pub fn to_pairs(&self) -> (r: Vec<(Vec<u8>, Vec<u8>)>)
        requires
            self.wf(),
        ensures
            r.deep_view() == self.spec_pairs(),
    {
        let mut out: Vec<(Vec<u8>, Vec<u8>)> = Vec::new();
        out.push((str_bytes("symbol"), copy_bytes(&self.symbol)));
        out.push((str_bytes("side"), self.side.to_bytes()));
        out.push((str_bytes("type"), self.order_type.to_bytes()));
        match &self.quantity {
            Some(d) => out.push((str_bytes("quantity"), d.to_bytes())),
            None => {},
        }
        match &self.quote_order_quantity {
            Some(d) => out.push((str_bytes("quoteOrderQty"), d.to_bytes())),
            None => {},
        }
        match &self.price {
            Some(d) => out.push((str_bytes("price"), d.to_bytes())),
            None => {},
        }
        match &self.new_client_order_id {
            Some(id) => out.push((str_bytes("newClientOrderId"), copy_bytes(id))),
            None => {},
        }
        match self.recv_window {
            Some(w) => {
                let d = Decimal::from_u64(w);
                proof {
                    assert(d == spec_dec_of_i64(w as int));
                }
                out.push((str_bytes("recvWindow"), d.to_bytes()));
            },
            None => {},
        }
        let td = Decimal::from_i64(self.timestamp);
        out.push((str_bytes("timestamp"), td.to_bytes()));
        proof {
            assert(out.deep_view() =~~= self.spec_pairs());
        }
        out
    }

    /// The exact signed query string the endpoint transmits.
    pub fn signed_query(&self, secret: &Vec<u8>) -> (r: Vec<u8>)
        requires
            self.wf(),
        ensures
            r@ == spec_signed_query(self.spec_pairs(), secret@),
    {
        let pairs = self.to_pairs();
        sign_query(&pairs, secret)
    }
}

/// The singleton pair of an optional decimal field, or nothing.
pub open spec fn opt_dec_pair(key: Seq<u8>, v: Option<Decimal>) -> Seq<(Seq<u8>, Seq<u8>)> {
    match v {
        Some(d) => seq![(key, spec_ser_dec(d))],
        None => Seq::empty(),
    }
}

/// An optional field left out of the input is absent from the wire
/// query: its key occurs in no pair.
#[verifier::rlimit(100)]
pub proof fn lemma_optional_fields_absent(q: OrderQuery)
    ensures
        q.quantity is None ==> pairs_lack_key(q.spec_pairs(), "quantity".spec_bytes()),
        q.quote_order_quantity is None ==> pairs_lack_key(
            q.spec_pairs(), "quoteOrderQty".spec_bytes()),
        q.price is None ==> pairs_lack_key(q.spec_pairs(), "price".spec_bytes()),
        q.new_client_order_id is None ==> pairs_lack_key(
            q.spec_pairs(), "newClientOrderId".spec_bytes()),
        q.recv_window is None ==> pairs_lack_key(q.spec_pairs(), "recvWindow".spec_bytes()),
{
    reveal_strlit("symbol");
    reveal_strlit("side");
    reveal_strlit("type");
    reveal_strlit("quantity");
    reveal_strlit("quoteOrderQty");
    reveal_strlit("price");
    reveal_strlit("newClientOrderId");
    reveal_strlit("recvWindow");
    reveal_strlit("timestamp");
    assert(is_ascii("symbol"));
    assert(is_ascii("side"));
    assert(is_ascii("type"));
    assert(is_ascii("quantity"));
    assert(is_ascii("quoteOrderQty"));
    assert(is_ascii("price"));
    assert(is_ascii("newClientOrderId"));
    assert(is_ascii("recvWindow"));
    assert(is_ascii("timestamp"));
    assert("symbol".spec_bytes().len() == 6);
    assert("side".spec_bytes().len() == 4);
    assert("type".spec_bytes().len() == 4);
    assert("quantity".spec_bytes().len() == 8);
    assert("quoteOrderQty".spec_bytes().len() == 13);
    assert("price".spec_bytes().len() == 5);
    assert("newClientOrderId".spec_bytes().len() == 16);
    assert("recvWindow".spec_bytes().len() == 10);
    assert("timestamp".spec_bytes().len() == 9);
}

/// No pair of the list carries the key.
pub open spec fn pairs_lack_key(pairs: Seq<(Seq<u8>, Seq<u8>)>, key: Seq<u8>) -> bool {
    forall|k: int| 0 <= k < pairs.len() ==> (#[trigger] pairs[k]).0 != key
}

} // verus!

verus! {

/// The order placement endpoint's output.
#[derive(Debug, PartialEq)]
pub struct OrderOutput {
    pub symbol: Vec<u8>,
    pub order_id: Vec<u8>,
    pub order_list_id: Option<i32>,
    pub price: Decimal,
    pub orig_qty: Decimal,
    pub order_type: OrderType,
    pub side: OrderSide,
    /// Seconds since the epoch.
    pub transact_time: i64,
}

#[verifier::ext_equal]
pub struct OrderOutputV {
    pub symbol: Seq<u8>,
    pub order_id: Seq<u8>,
    pub order_list_id: Option<i32>,
    pub price: Decimal,
    pub orig_qty: Decimal,
    pub order_type: OrderType,
    pub side: OrderSide,
    pub transact_time: i64,
}

impl View for OrderOutput {
    type V = OrderOutputV;

    open spec fn view(&self) -> OrderOutputV {
        OrderOutputV {
            symbol: self.symbol@,
            order_id: self.order_id@,
            order_list_id: self.order_list_id,
            price: self.price,
            orig_qty: self.orig_qty,
            order_type: self.order_type,
            side: self.side,
            transact_time: self.transact_time,
        }
    }
}

/// What the order list id field must hold: null, or a whole number in
/// signed 32-bit range.
pub open spec fn spec_order_list_id_of(v: JsonV) -> Option<Option<i32>> {
    match v {
        JsonV::Null => Some(None),
        JsonV::Num(d) => if d.scale == 0 && i32::MIN <= d.int_val() && d.int_val() <= i32::MAX {
            Some(Some(d.int_val() as i32))
        } else {
            None
        },
        _ => None,
    }
}

/// What a whole-second timestamp field must hold.
pub open spec fn spec_seconds_of(v: JsonV) -> Option<i64> {
    match v {
        JsonV::Num(d) => if d.scale == 0 && i64::MIN <= d.int_val() && d.int_val() <= i64::MAX {
            Some(d.int_val() as i64)
        } else {
            None
        },
        _ => None,
    }
}

/// What the order placement payload must hold, field by field.
pub open spec fn spec_order_output_of_json(v: JsonV) -> Option<OrderOutputV> {
    match v {
        JsonV::Obj(fs) => match (
            spec_lookup(fs, "symbol".spec_bytes()),
            spec_lookup(fs, "orderId".spec_bytes()),
            spec_lookup(fs, "orderListId".spec_bytes()),
            spec_lookup(fs, "price".spec_bytes()),
            spec_lookup(fs, "origQty".spec_bytes()),
            spec_lookup(fs, "type".spec_bytes()),
            spec_lookup(fs, "side".spec_bytes()),
            spec_lookup(fs, "transactTime".spec_bytes()),
        ) {
            (
                Some(JsonV::Str(symbol)),
                Some(JsonV::Str(order_id)),
                Some(olv),
                Some(prv),
                Some(oqv),
                Some(JsonV::Str(tw)),
                Some(JsonV::Str(sw)),
                Some(ttv),
            ) => match (
                spec_dec_value(prv),
                spec_dec_value(oqv),
                spec_order_list_id_of(olv),
                spec_order_type_of(tw),
                spec_side_of(sw),
                spec_seconds_of(ttv),
            ) {
                (
                    Some(price),
                    Some(orig_qty),
                    Some(order_list_id),
                    Some(order_type),
                    Some(side),
                    Some(transact_time),
                ) => Some(
                    OrderOutputV {
                        symbol,
                        order_id,
                        order_list_id,
                        price,
                        orig_qty,
                        order_type,
                        side,
                        transact_time,
                    },
                ),
                _ => None,
            },
            _ => None,
        },
        _ => None,
    }
}

/// Reads the order placement payload from its JSON object.
pub fn order_output_from_json(j: &Json) -> (r: Option<OrderOutput>)
    ensures
        match r {
            Some(out) => spec_order_output_of_json(j@) == Some(out@),
            None => spec_order_output_of_json(j@) is None,
        },
{
    let fields = match j {
        Json::Obj(fields) => fields,
        _ => {
            return None;
        },
    };
    proof {
        assert((j@)->Obj_0 =~= obj_view(fields));
    }
    let syj = match obj_get(fields, &str_bytes("symbol")) {
        Some(x) => x,
        None => {
            return None;
        },
    };
    let oij = match obj_get(fields, &str_bytes("orderId")) {
        Some(x) => x,
        None => {
            return None;
        },
    };
    let olj = match obj_get(fields, &str_bytes("orderListId")) {
        Some(x) => x,
        None => {
            return None;
        },
    };
    let prj = match obj_get(fields, &str_bytes("price")) {
        Some(x) => x,
        None => {
            return None;
        },
    };
    let oqj = match obj_get(fields, &str_bytes("origQty")) {
        Some(x) => x,
        None => {
            return None;
        },
    };
    let tyj = match obj_get(fields, &str_bytes("type")) {
        Some(x) => x,
        None => {
            return None;
        },
    };
    let sdj = match obj_get(fields, &str_bytes("side")) {
        Some(x) => x,
        None => {
            return None;
        },
    };
    let ttj = match obj_get(fields, &str_bytes("transactTime")) {
        Some(x) => x,
        None => {
            return None;
        },
    };
    let symbol = match syj {
        Json::Str(s) => copy_bytes(s),
        _ => {
            return None;
        },
    };
    let order_id = match oij {
        Json::Str(s) => copy_bytes(s),
        _ => {
            return None;
        },
    };
    let order_list_id: Option<i32> = match olj {
        Json::Null => None,
        Json::Num(d) => match d.to_i64() {
            Some(t) => if t >= -2147483648i64 && t <= 2147483647i64 {
                Some(t as i32)
            } else {
                return None;
            },
            None => {
                return None;
            },
        },
        _ => {
            return None;
        },
    };
    let price = match dec_value(prj) {
        Some(d) => d,
        None => {
            return None;
        },
    };
    let orig_qty = match dec_value(oqj) {
        Some(d) => d,
        None => {
            return None;
        },
    };
    let order_type = match tyj {
        Json::Str(s) => match order_type_of_bytes(s) {
            Some(t) => t,
            None => {
                return None;
            },
        },
        _ => {
            return None;
        },
    };
    let side = match sdj {
        Json::Str(s) => match side_of_bytes(s) {
            Some(t) => t,
            None => {
                return None;
            },
        },
        _ => {
            return None;
        },
    };
    let transact_time = match ttj {
        Json::Num(d) => match d.to_i64() {
            Some(t) => t,
            None => {
                return None;
            },
        },
        _ => {
            return None;
        },
    };
    let out = OrderOutput {
        symbol,
        order_id,
        order_list_id,
        price,
        orig_qty,
        order_type,
        side,
        transact_time,
    };
    proof {
        assert(spec_order_output_of_json(j@) == Some(out@));
    }
    Some(out)
}

/// The JSON object of the payload, fields in canonical order.
pub open spec fn spec_order_output_json(v: OrderOutputV) -> JsonV {
    JsonV::Obj(
        seq![
            ("symbol".spec_bytes(), JsonV::Str(v.symbol)),
            ("orderId".spec_bytes(), JsonV::Str(v.order_id)),
            (
                "orderListId".spec_bytes(),
                match v.order_list_id {
                    Some(t) => JsonV::Num(spec_dec_of_i64(t as int)),
                    None => JsonV::Null,
                },
            ),
            ("price".spec_bytes(), JsonV::Num(v.price)),
            ("origQty".spec_bytes(), JsonV::Num(v.orig_qty)),
            ("type".spec_bytes(), JsonV::Str(v.order_type.spec_word())),
            ("side".spec_bytes(), JsonV::Str(v.side.spec_word())),
            ("transactTime".spec_bytes(), JsonV::Num(spec_dec_of_i64(v.transact_time as int))),
        ],
    )
}

impl OrderOutput {
    /// Writes the payload back as its JSON object.
    pub fn to_json(&self) -> (j: Json)
        ensures
            j@ == spec_order_output_json(self@),
    {
        let mut fields: Vec<(Vec<u8>, Json)> = Vec::new();
        fields.push((str_bytes("symbol"), Json::Str(copy_bytes(&self.symbol))));
        fields.push((str_bytes("orderId"), Json::Str(copy_bytes(&self.order_id))));
        let ol = match self.order_list_id {
            Some(t) => Json::Num(Decimal::from_i64(t as i64)),
            None => Json::Null,
        };
        fields.push((str_bytes("orderListId"), ol));
        fields.push((str_bytes("price"), Json::Num(self.price)));
        fields.push((str_bytes("origQty"), Json::Num(self.orig_qty)));
        fields.push((str_bytes("type"), Json::Str(self.order_type.to_bytes())));
        fields.push((str_bytes("side"), Json::Str(self.side.to_bytes())));
        fields.push((str_bytes("transactTime"), Json::Num(Decimal::from_i64(self.transact_time))));
        let j = Json::Obj(fields);
        proof {
            let fv = (j@)->Obj_0;
            assert(fields@.len() == 8);
            let sv = (spec_order_output_json(self@))->Obj_0;
            assert forall|n: int| 0 <= n < 8 implies #[trigger] fv[n] == (
                fields@[n].0@, fields@[n].1@) by {};
            assert(fv[0] == sv[0]);
            assert(fv[1] == sv[1]);
            assert(fv[2] == sv[2]);
            assert(fv[3] == sv[3]);
            assert(fv[4] == sv[4]);
            assert(fv[5] == sv[5]);
            assert(fv[6] == sv[6]);
            assert(fv[7] == sv[7]);
            assert(fv =~= sv);
            assert(j@ == spec_order_output_json(self@));
        }
        j
    }
}

/// Round trip: the JSON form of an order placement payload reads back
/// as exactly the same typed value, field for field.
#[verifier::rlimit(100)]
pub proof fn lemma_order_output_round_trip(v: OrderOutputV)
    ensures
        spec_order_output_of_json(spec_order_output_json(v)) == Some(v),
{
    reveal_strlit("symbol");
    reveal_strlit("orderId");
    reveal_strlit("orderListId");
    reveal_strlit("price");
    reveal_strlit("origQty");
    reveal_strlit("type");
    reveal_strlit("side");
    reveal_strlit("transactTime");
    assert(is_ascii("symbol"));
    assert(is_ascii("orderId"));
    assert(is_ascii("orderListId"));
    assert(is_ascii("price"));
    assert(is_ascii("origQty"));
    assert(is_ascii("type"));
    assert(is_ascii("side"));
    assert(is_ascii("transactTime"));
    assert("symbol".spec_bytes().len() == 6);
    assert("orderId".spec_bytes().len() == 7);
    assert("orderListId".spec_bytes().len() == 11);
    assert("price".spec_bytes().len() == 5);
    assert("origQty".spec_bytes().len() == 7);
    assert("type".spec_bytes().len() == 4);
    assert("side".spec_bytes().len() == 4);
    assert("transactTime".spec_bytes().len() == 12);
    assert("orderId".spec_bytes()[2] == 'd' as u8);
    assert("origQty".spec_bytes()[2] == 'i' as u8);
    assert("type".spec_bytes()[0] == 't' as u8);
    assert("side".spec_bytes()[0] == 's' as u8);
    let fs = (spec_order_output_json(v))->Obj_0;
    lemma_lookup_at(fs, "symbol".spec_bytes(), 0);
    lemma_lookup_at(fs, "orderId".spec_bytes(), 1);
    lemma_lookup_at(fs, "orderListId".spec_bytes(), 2);
    lemma_lookup_at(fs, "price".spec_bytes(), 3);
    lemma_lookup_at(fs, "origQty".spec_bytes(), 4);
    lemma_lookup_at(fs, "type".spec_bytes(), 5);
    lemma_lookup_at(fs, "side".spec_bytes(), 6);
    lemma_lookup_at(fs, "transactTime".spec_bytes(), 7);
    match v.order_list_id {
        Some(t) => {
            assert(spec_order_list_id_of(JsonV::Num(spec_dec_of_i64(t as int))) == Some(
                Some(t)));
        },
        None => {
            assert(spec_order_list_id_of(JsonV::Null) == Some(None::<i32>));
        },
    }
    crate::v3::enums::lemma_order_type_word_round_trip(v.order_type);
    crate::v3::enums::lemma_side_word_round_trip(v.side);
    assert(spec_seconds_of(JsonV::Num(spec_dec_of_i64(v.transact_time as int))) == Some(
        v.transact_time));
    assert(spec_order_output_of_json(spec_order_output_json(v)) == Some(v));
}

} // verus!

verus! {

/// The JSON value behind a successful order placement response.
pub open spec fn order_response_ok(jv: JsonV, out: OrderOutputV) -> bool {
    json_wf(jv) && spec_envelope(jv) is None && spec_order_output_of_json(jv) == Some(out)
}

/// Splits a parsed response into the envelope: the exchange's error
/// when the body carries `{code, msg}` — an order rejection such as an
/// insufficient balance comes back this way, never as a
/// deserialization failure — else the typed payload, else a
/// deserialization failure.
pub fn order_response_from_json(j: &Json) -> (r: Result<ApiResponse<OrderOutput>, ApiV3Error>)
    ensures
        match spec_envelope(j@) {
            Some((c, m)) => r matches Ok(ApiResponse::Error(e)) && e.code as int == c && e.msg@
                == m,
            None => match spec_order_output_of_json(j@) {
                Some(out) => r matches Ok(ApiResponse::Success(o)) && o@ == out,
                None => r matches Err(ApiV3Error::Deserialization),
            },
        },
{
    match envelope_error(j) {
        Some(e) => Ok(ApiResponse::Error(e)),
        None => match order_output_from_json(j) {
            Some(out) => Ok(ApiResponse::Success(out)),
            None => Err(ApiV3Error::Deserialization),
        },
    }
}

/// Parses a raw response body into the typed output, the exchange's
/// error, or a deserialization failure. A malformed or truncated body
/// always gives the deserialization kind.
pub fn parse_order_response(body: &Vec<u8>) -> (r: Result<OrderOutput, ApiV3Error>)
    ensures
        r matches Ok(out) ==> exists|jv: JsonV| order_response_ok(jv, out@),
        r matches Err(ApiV3Error::Api(e)) ==> exists|jv: JsonV|
            json_wf(jv) && #[trigger] spec_envelope(jv) == Some((e.code as int, e.msg@)),
        forall|jv: JsonV| json_wf(jv) && body@ == spec_ser_json(jv) ==> (match spec_envelope(
            jv) {
            Some(cm) => r matches Err(ApiV3Error::Api(e)) && e.code as int == cm.0 && e.msg@
                == cm.1,
            None => match spec_order_output_of_json(jv) {
                Some(out) => r matches Ok(o) && o@ == out,
                None => r matches Err(ApiV3Error::Deserialization),
            },
        }),
{
    match crate::json::parse_json(body) {
        Some(j) => {
            match order_response_from_json(&j) {
                Ok(resp) => {
                    let r = resp.into_api_result();
                    proof {
                        match r {
                            Ok(ref out) => {
                                assert(order_response_ok(j@, out@));
                            },
                            Err(ref e) => {
                                match e {
                                    ApiV3Error::Api(ref ae) => {
                                        assert(spec_envelope(j@) == Some(
                                            (ae.code as int, ae.msg@)));
                                    },
                                    _ => {},
                                }
                            },
                        }
                        assert forall|jv: JsonV| json_wf(jv) && body@ == spec_ser_json(jv)
                            implies (match spec_envelope(jv) {
                            Some(cm) => r matches Err(ApiV3Error::Api(e)) && e.code as int
                                == cm.0 && e.msg@ == cm.1,
                            None => match spec_order_output_of_json(jv) {
                                Some(out) => r matches Ok(o) && o@ == out,
                                None => r matches Err(ApiV3Error::Deserialization),
                            },
                        }) by {
                            assert(j@ == jv);
                        };
                    }
                    r
                },
                Err(e) => {
                    proof {
                        assert forall|jv: JsonV| json_wf(jv) && body@ == spec_ser_json(jv)
                            implies spec_envelope(jv) is None && spec_order_output_of_json(jv)
                            is None by {
                            assert(j@ == jv);
                        };
                    }
                    Err(e)
                },
            }
        },
        None => {
            proof {
                assert forall|jv: JsonV| json_wf(jv) && body@ == spec_ser_json(jv)
                    implies false by {};
            }
            Err(ApiV3Error::Deserialization)
        },
    }
}

} // verus!
