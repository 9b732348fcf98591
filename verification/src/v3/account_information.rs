//! Account information: the signed wire query and the typed output
//! parsed from the response.

use vstd::prelude::*;
use vstd::string::StringSliceAdditionalSpecFns;
use vstd::string::is_ascii;
use crate::bytes::{str_bytes, copy_bytes};
use crate::decimal::{Decimal, spec_ser_dec, spec_dec_of_i64};
use crate::json::{Json, JsonV, spec_lookup, obj_get, obj_view, lemma_lookup_at};
use crate::sign::{spec_signed_query, sign_query};
use crate::v3::{ApiResponse, ApiError, ApiV3Error, spec_envelope, envelope_error, spec_dec_value, dec_value};
use crate::json::{json_wf, spec_ser_json};

verus! {

/// One asset's balance: the asset symbol and the free and locked
/// amounts, as exact decimals.
#[derive(Debug, PartialEq)]
pub struct AccountBalance {
    pub asset: Vec<u8>,
    pub free: Decimal,
    pub locked: Decimal,
}

#[verifier::ext_equal]
pub struct AccountBalanceV {
    pub asset: Seq<u8>,
    pub free: Decimal,
    pub locked: Decimal,
}

impl View for AccountBalance {
    type V = AccountBalanceV;

    open spec fn view(&self) -> AccountBalanceV {
        AccountBalanceV { asset: self.asset@, free: self.free, locked: self.locked }
    }
}

/// The account information endpoint's output.
#[derive(Debug, PartialEq)]
pub struct AccountInformationOutput {
    pub maker_commission: Decimal,
    pub taker_commission: Decimal,
    pub buyer_commission: Decimal,
    pub seller_commission: Decimal,
    pub can_trade: bool,
    pub can_withdraw: bool,
    pub can_deposit: bool,
    /// Milliseconds since the epoch, when the exchange reports one.
    pub update_time: Option<i64>,
    pub account_type: Vec<u8>,
    pub balances: Vec<AccountBalance>,
    pub permissions: Vec<Vec<u8>>,
}

#[verifier::ext_equal]
pub struct AccountInformationOutputV {
    pub maker_commission: Decimal,
    pub taker_commission: Decimal,
    pub buyer_commission: Decimal,
    pub seller_commission: Decimal,
    pub can_trade: bool,
    pub can_withdraw: bool,
    pub can_deposit: bool,
    pub update_time: Option<i64>,
    pub account_type: Seq<u8>,
    pub balances: Seq<AccountBalanceV>,
    pub permissions: Seq<Seq<u8>>,
}

impl View for AccountInformationOutput {
    type V = AccountInformationOutputV;

    open spec fn view(&self) -> AccountInformationOutputV {
        AccountInformationOutputV {
            maker_commission: self.maker_commission,
            taker_commission: self.taker_commission,
            buyer_commission: self.buyer_commission,
            seller_commission: self.seller_commission,
            can_trade: self.can_trade,
            can_withdraw: self.can_withdraw,
            can_deposit: self.can_deposit,
            update_time: self.update_time,
            account_type: self.account_type@,
            balances: Seq::new(self.balances@.len(), |i: int| self.balances@[i]@),
            permissions: Seq::new(self.permissions@.len(), |i: int| self.permissions@[i]@),
        }
    }
}

/// The wire query of the endpoint: an optional receive window and the
/// request timestamp in milliseconds.
pub struct AccountInformationQuery {
    pub recv_window: Option<u64>,
    pub timestamp: i64,
}

impl AccountInformationQuery {
    /// A receive window, when present, stays within the exchange's
    /// ceiling.
    pub open spec fn wf(&self) -> bool {
        match self.recv_window {
            Some(w) => w <= crate::v3::RECV_WINDOW_MAX,
            None => true,
        }
    }

    /// The wire pairs, in wire order: `recvWindow` only when present,
    /// then `timestamp`.
    pub open spec fn spec_pairs(&self) -> Seq<(Seq<u8>, Seq<u8>)> {
        let head: Seq<(Seq<u8>, Seq<u8>)> = match self.recv_window {
            Some(w) => seq![
                ("recvWindow".spec_bytes(), spec_ser_dec(spec_dec_of_i64(w as int))),
            ],
            None => Seq::empty(),
        };
        head + seq![("timestamp".spec_bytes(), spec_ser_dec(spec_dec_of_i64(self.timestamp as int)))]
    }

    pub fn to_pairs(&self) -> (r: Vec<(Vec<u8>, Vec<u8>)>)
        requires
            self.wf(),
        ensures
            r.deep_view() == self.spec_pairs(),
    {
        let mut out: Vec<(Vec<u8>, Vec<u8>)> = Vec::new();
        match self.recv_window {
            Some(w) => {
                let d = Decimal::from_u64(w);
                proof {
                    assert(d == spec_dec_of_i64(w as int));
                }
                out.push((str_bytes("recvWindow"), d.to_bytes()));
            },
            None => {},
        }
        let td = Decimal::from_i64(self.timestamp);
        out.push((str_bytes("timestamp"), td.to_bytes()));
        proof {
            assert(out.deep_view() =~~= self.spec_pairs());
        }
        out
    }

    /// The exact signed query string the endpoint transmits.
    pub fn signed_query(&self, secret: &Vec<u8>) -> (r: Vec<u8>)
        requires
            self.wf(),
        ensures
            r@ == spec_signed_query(self.spec_pairs(), secret@),
    {
        let pairs = self.to_pairs();
        sign_query(&pairs, secret)
    }
}

/// What a balance object must hold: a string `asset` and decimal
/// `free` and `locked` fields, found by key wherever they stand.
pub open spec fn spec_balance_of_json(v: JsonV) -> Option<AccountBalanceV> {
    match v {
        JsonV::Obj(fs) => match (
            spec_lookup(fs, "asset".spec_bytes()),
            spec_lookup(fs, "free".spec_bytes()),
            spec_lookup(fs, "locked".spec_bytes()),
        ) {
            (Some(JsonV::Str(asset)), Some(fv), Some(lv)) => match (
                spec_dec_value(fv),
                spec_dec_value(lv),
            ) {
                (Some(free), Some(locked)) => Some(AccountBalanceV { asset, free, locked }),
                _ => None,
            },
            _ => None,
        },
        _ => None,
    }
}

/// Reads one balance from its JSON object.
pub fn balance_from_json(j: &Json) -> (r: Option<AccountBalance>)
    ensures
        match r {
            Some(b) => spec_balance_of_json(j@) == Some(b@),
            None => spec_balance_of_json(j@) is None,
        },
{
    match j {
        Json::Obj(fields) => {
            proof {
                assert((j@)->Obj_0 =~= obj_view(fields));
            }
            let a = obj_get(fields, &str_bytes("asset"));
            let f = obj_get(fields, &str_bytes("free"));
            let l = obj_get(fields, &str_bytes("locked"));
            match (a, f, l) {
                (Some(aj), Some(fj), Some(lj)) => match aj {
                    Json::Str(asset) => match (dec_value(fj), dec_value(lj)) {
                        (Some(free), Some(locked)) => Some(
                            AccountBalance { asset: copy_bytes(asset), free, locked },
                        ),
                        _ => None,
                    },
                    _ => None,
                },
                _ => None,
            }
        },
        _ => None,
    }
}

/// The JSON object of one balance, fields in canonical order.
pub open spec fn spec_balance_json(b: AccountBalanceV) -> JsonV {
    JsonV::Obj(
        seq![
            ("asset".spec_bytes(), JsonV::Str(b.asset)),
            ("free".spec_bytes(), JsonV::Num(b.free)),
            ("locked".spec_bytes(), JsonV::Num(b.locked)),
        ],
    )
}

pub fn balance_to_json(b: &AccountBalance) -> (j: Json)
    ensures
        j@ == spec_balance_json(b@),
{
    let mut fields: Vec<(Vec<u8>, Json)> = Vec::new();
    fields.push((str_bytes("asset"), Json::Str(copy_bytes(&b.asset))));
    fields.push((str_bytes("free"), Json::Num(b.free)));
    fields.push((str_bytes("locked"), Json::Num(b.locked)));
    let j = Json::Obj(fields);
    proof {
        let fv = (j@)->Obj_0;
        assert(fields@.len() == 3);
        assert(fv[0] == (fields@[0].0@, fields@[0].1@));
        assert(fv[1] == (fields@[1].0@, fields@[1].1@));
        assert(fv[2] == (fields@[2].0@, fields@[2].1@));
        assert(fv =~= (spec_balance_json(b@))->Obj_0);
        assert(j@ == spec_balance_json(b@));
    }
    j
}

/// A balance's JSON object reads back as exactly that balance.
pub proof fn lemma_balance_round_trip(b: AccountBalanceV)
    ensures
        spec_balance_of_json(spec_balance_json(b)) == Some(b),
{
    reveal_strlit("asset");
    reveal_strlit("free");
    reveal_strlit("locked");
    assert(is_ascii("asset"));
    assert(is_ascii("free"));
    assert(is_ascii("locked"));
    assert("asset".spec_bytes().len() == 5);
    assert("free".spec_bytes().len() == 4);
    assert("locked".spec_bytes().len() == 6);
    let fs = (spec_balance_json(b))->Obj_0;
    lemma_lookup_at(fs, "asset".spec_bytes(), 0);
    lemma_lookup_at(fs, "free".spec_bytes(), 1);
    lemma_lookup_at(fs, "locked".spec_bytes(), 2);
}

/// When no receive window is given, no `recvWindow` field stands in
/// the wire query.
pub proof fn lemma_recv_window_absent(q: AccountInformationQuery)
    requires
        q.recv_window is None,
    ensures
        forall|k: int| 0 <= k < q.spec_pairs().len()
            ==> (#[trigger] q.spec_pairs()[k]).0 != "recvWindow".spec_bytes(),
{
    reveal_strlit("recvWindow");
    reveal_strlit("timestamp");
    assert(is_ascii("recvWindow"));
    assert(is_ascii("timestamp"));
    assert(q.spec_pairs().len() == 1);
    assert(q.spec_pairs()[0].0 == "timestamp".spec_bytes());
    assert("timestamp".spec_bytes().len() == 9);
    assert("recvWindow".spec_bytes().len() == 10);
}

} // verus!

verus! {

/// What the update time field must hold: null, or whole milliseconds
/// in signed 64-bit range.
pub open spec fn spec_update_time_of(v: JsonV) -> Option<Option<i64>> {
    match v {
        JsonV::Null => Some(None),
        JsonV::Num(d) => if d.scale == 0 && i64::MIN <= d.int_val() && d.int_val() <= i64::MAX {
            Some(Some(d.int_val() as i64))
        } else {
            None
        },
        _ => None,
    }
}

/// The balances array, element by element; any ill-shaped element
/// fails the whole array.
pub open spec fn spec_balances_of(items: Seq<JsonV>) -> Option<Seq<AccountBalanceV>>
    decreases items.len(),
{
    if items.len() == 0 {
        Some(Seq::empty())
    } else {
        match (spec_balances_of(items.drop_last()), spec_balance_of_json(items.last())) {
            (Some(rest), Some(b)) => Some(rest.push(b)),
            _ => None,
        }
    }
}

/// The permissions array: strings only.
pub open spec fn spec_strings_of(items: Seq<JsonV>) -> Option<Seq<Seq<u8>>>
    decreases items.len(),
{
    if items.len() == 0 {
        Some(Seq::empty())
    } else {
        match (spec_strings_of(items.drop_last()), items.last()) {
            (Some(rest), JsonV::Str(s)) => Some(rest.push(s)),
            _ => None,
        }
    }
}

pub proof fn lemma_balances_of_prefix_none(items: Seq<JsonV>, j: int)
    requires
        0 <= j <= items.len(),
        spec_balances_of(items.subrange(0, j)) is None,
    ensures
        spec_balances_of(items) is None,
    decreases items.len() - j,
{
    if j < items.len() {
        assert(items.subrange(0, j + 1).drop_last() =~= items.subrange(0, j));
        lemma_balances_of_prefix_none(items, j + 1);
    } else {
        assert(items.subrange(0, j) =~= items);
    }
}

pub proof fn lemma_strings_of_prefix_none(items: Seq<JsonV>, j: int)
    requires
        0 <= j <= items.len(),
        spec_strings_of(items.subrange(0, j)) is None,
    ensures
        spec_strings_of(items) is None,
    decreases items.len() - j,
{
    if j < items.len() {
        assert(items.subrange(0, j + 1).drop_last() =~= items.subrange(0, j));
        lemma_strings_of_prefix_none(items, j + 1);
    } else {
        assert(items.subrange(0, j) =~= items);
    }
}

/// What the account information payload must hold, field by field.
pub open spec fn spec_account_information_of_json(v: JsonV) -> Option<AccountInformationOutputV> {
    match v {
        JsonV::Obj(fs) => match (
            spec_lookup(fs, "makerCommission".spec_bytes()),
            spec_lookup(fs, "takerCommission".spec_bytes()),
            spec_lookup(fs, "buyerCommission".spec_bytes()),
            spec_lookup(fs, "sellerCommission".spec_bytes()),
            spec_lookup(fs, "canTrade".spec_bytes()),
            spec_lookup(fs, "canWithdraw".spec_bytes()),
            spec_lookup(fs, "canDeposit".spec_bytes()),
            spec_lookup(fs, "updateTime".spec_bytes()),
            spec_lookup(fs, "accountType".spec_bytes()),
            spec_lookup(fs, "balances".spec_bytes()),
            spec_lookup(fs, "permissions".spec_bytes()),
        ) {
            (
                Some(mcv),
                Some(tcv),
                Some(bcv),
                Some(scv),
                Some(JsonV::Bool(can_trade)),
                Some(JsonV::Bool(can_withdraw)),
                Some(JsonV::Bool(can_deposit)),
                Some(utv),
                Some(JsonV::Str(account_type)),
                Some(JsonV::Arr(bitems)),
                Some(JsonV::Arr(pitems)),
            ) => match (
                spec_dec_value(mcv),
                spec_dec_value(tcv),
                spec_dec_value(bcv),
                spec_dec_value(scv),
                spec_update_time_of(utv),
                spec_balances_of(bitems),
                spec_strings_of(pitems),
            ) {
                (
                    Some(mc),
                    Some(tc),
                    Some(bc),
                    Some(sc),
                    Some(update_time),
                    Some(balances),
                    Some(permissions),
                ) => Some(
                    AccountInformationOutputV {
                        maker_commission: mc,
                        taker_commission: tc,
                        buyer_commission: bc,
                        seller_commission: sc,
                        can_trade,
                        can_withdraw,
                        can_deposit,
                        update_time,
                        account_type,
                        balances,
                        permissions,
                    },
                ),
                _ => None,
            },
            _ => None,
        },
        _ => None,
    }
}

fn balances_from_json(items: &Vec<Json>) -> (r: Option<Vec<AccountBalance>>)
    ensures
        match r {
            Some(out) => spec_balances_of(arr_elems(items)) == Some(
                Seq::new(out@.len(), |i: int| out@[i]@),
            ),
            None => spec_balances_of(arr_elems(items)) is None,
        },
{
    let ghost iv = arr_elems(items);
    let mut out: Vec<AccountBalance> = Vec::new();
    let mut i: usize = 0;
    proof {
        assert(iv.subrange(0, 0) =~= Seq::<JsonV>::empty());
        assert(Seq::new(out@.len(), |k: int| out@[k]@) =~= Seq::<AccountBalanceV>::empty());
    }
    while i < items.len()
        invariant
            i <= items.len(),
            iv == arr_elems(items),
            iv.len() == items@.len(),
            spec_balances_of(iv.subrange(0, i as int)) == Some(Seq::new(out@.len(), |k: int| out@[k]@)),
        decreases items.len() - i,
    {
        let b = balance_from_json(&items[i]);
        match b {
            Some(bal) => {
                out.push(bal);
            },
            None => {
                proof {
                    assert(iv.subrange(0, i + 1).drop_last() =~= iv.subrange(0, i as int));
                    assert(iv.subrange(0, i + 1).last() == iv[i as int]);
                    assert(iv[i as int] == items@[i as int]@);
                    assert(spec_balances_of(iv.subrange(0, i + 1)) is None);
                    lemma_balances_of_prefix_none(iv, i + 1);
                }
                return None;
            },
        }
        proof {
            assert(iv.subrange(0, i + 1).drop_last() =~= iv.subrange(0, i as int));
            assert(iv.subrange(0, i + 1).last() == iv[i as int]);
            assert(iv[i as int] == items@[i as int]@);
            assert(Seq::new(out@.len(), |k: int| out@[k]@) =~= Seq::new(
                (out@.len() - 1) as nat, |k: int| out@[k]@).push(out@[out@.len() - 1]@));
        }
        i = i + 1;
    }
    proof {
        assert(iv.subrange(0, iv.len() as int) =~= iv);
    }
    Some(out)
}

fn permissions_from_json(items: &Vec<Json>) -> (r: Option<Vec<Vec<u8>>>)
    ensures
        match r {
            Some(out) => spec_strings_of(arr_elems(items)) == Some(
                Seq::new(out@.len(), |i: int| out@[i]@),
            ),
            None => spec_strings_of(arr_elems(items)) is None,
        },
{
    let ghost iv = arr_elems(items);
    let mut out: Vec<Vec<u8>> = Vec::new();
    let mut i: usize = 0;
    proof {
        assert(iv.subrange(0, 0) =~= Seq::<JsonV>::empty());
        assert(Seq::new(out@.len(), |k: int| out@[k]@) =~= Seq::<Seq<u8>>::empty());
    }
    while i < items.len()
        invariant
            i <= items.len(),
            iv == arr_elems(items),
            iv.len() == items@.len(),
            spec_strings_of(iv.subrange(0, i as int)) == Some(Seq::new(out@.len(), |k: int| out@[k]@)),
        decreases items.len() - i,
    {
        let keep: bool = match &items[i] {
            Json::Str(s) => {
                out.push(copy_bytes(s));
                true
            },
            _ => false,
        };
        proof {
            assert(iv.subrange(0, i + 1).drop_last() =~= iv.subrange(0, i as int));
            assert(iv.subrange(0, i + 1).last() == iv[i as int]);
            assert(iv[i as int] == items@[i as int]@);
        }
        if !keep {
            proof {
                assert(spec_strings_of(iv.subrange(0, i + 1)) is None);
                lemma_strings_of_prefix_none(iv, i + 1);
            }
            return None;
        }
        proof {
            assert(Seq::new(out@.len(), |k: int| out@[k]@) =~= Seq::new(
                (out@.len() - 1) as nat, |k: int| out@[k]@).push(out@[out@.len() - 1]@));
        }
        i = i + 1;
    }
    proof {
        assert(iv.subrange(0, iv.len() as int) =~= iv);
    }
    Some(out)
}

/// The elements of an array value, as their views.
pub open spec fn arr_elems(items: &Vec<Json>) -> Seq<JsonV> {
    Seq::new(items@.len(), |i: int| items@[i]@)
}

} // verus!

verus! {

/// Reads the account information payload from its JSON object.
pub fn account_information_from_json(j: &Json) -> (r: Option<AccountInformationOutput>)
    ensures
        match r {
            Some(out) => spec_account_information_of_json(j@) == Some(out@),
            None => spec_account_information_of_json(j@) is None,
        },
{
    let fields = match j {
        Json::Obj(fields) => fields,
        _ => {
            return None;
        },
    };
    proof {
        assert((j@)->Obj_0 =~= obj_view(fields));
    }
    let mkj = match obj_get(fields, &str_bytes("makerCommission")) {
        Some(x) => x,
        None => {
            return None;
        },
    };
    let tkj = match obj_get(fields, &str_bytes("takerCommission")) {
        Some(x) => x,
        None => {
            return None;
        },
    };
    let bkj = match obj_get(fields, &str_bytes("buyerCommission")) {
        Some(x) => x,
        None => {
            return None;
        },
    };
    let skj = match obj_get(fields, &str_bytes("sellerCommission")) {
        Some(x) => x,
        None => {
            return None;
        },
    };
    let ctj = match obj_get(fields, &str_bytes("canTrade")) {
        Some(x) => x,
        None => {
            return None;
        },
    };
    let cwj = match obj_get(fields, &str_bytes("canWithdraw")) {
        Some(x) => x,
        None => {
            return None;
        },
    };
    let cdj = match obj_get(fields, &str_bytes("canDeposit")) {
        Some(x) => x,
        None => {
            return None;
        },
    };
    let utj = match obj_get(fields, &str_bytes("updateTime")) {
        Some(x) => x,
        None => {
            return None;
        },
    };
    let atj = match obj_get(fields, &str_bytes("accountType")) {
        Some(x) => x,
        None => {
            return None;
        },
    };
    let blj = match obj_get(fields, &str_bytes("balances")) {
        Some(x) => x,
        None => {
            return None;
        },
    };
    let pmj = match obj_get(fields, &str_bytes("permissions")) {
        Some(x) => x,
        None => {
            return None;
        },
    };
    let maker_commission = match dec_value(mkj) {
        Some(d) => d,
        None => {
            return None;
        },
    };
    let taker_commission = match dec_value(tkj) {
        Some(d) => d,
        None => {
            return None;
        },
    };
    let buyer_commission = match dec_value(bkj) {
        Some(d) => d,
        None => {
            return None;
        },
    };
    let seller_commission = match dec_value(skj) {
        Some(d) => d,
        None => {
            return None;
        },
    };
    let can_trade = match ctj {
        Json::Bool(b) => *b,
        _ => {
            return None;
        },
    };
    let can_withdraw = match cwj {
        Json::Bool(b) => *b,
        _ => {
            return None;
        },
    };
    let can_deposit = match cdj {
        Json::Bool(b) => *b,
        _ => {
            return None;
        },
    };
    let update_time: Option<i64> = match utj {
        Json::Null => None,
        Json::Num(d) => match d.to_i64() {
            Some(t) => Some(t),
            None => {
                return None;
            },
        },
        _ => {
            return None;
        },
    };
    let account_type = match atj {
        Json::Str(s) => copy_bytes(s),
        _ => {
            return None;
        },
    };
    let bl_items = match blj {
        Json::Arr(items) => items,
        _ => {
            return None;
        },
    };
    proof {
        assert((blj@)->Arr_0 =~= arr_elems(bl_items));
    }
    let balances = match balances_from_json(bl_items) {
        Some(b) => b,
        None => {
            return None;
        },
    };
    let pm_items = match pmj {
        Json::Arr(items) => items,
        _ => {
            return None;
        },
    };
    proof {
        assert((pmj@)->Arr_0 =~= arr_elems(pm_items));
    }
    let permissions = match permissions_from_json(pm_items) {
        Some(p) => p,
        None => {
            return None;
        },
    };
    let out = AccountInformationOutput {
        maker_commission,
        taker_commission,
        buyer_commission,
        seller_commission,
        can_trade,
        can_withdraw,
        can_deposit,
        update_time,
        account_type,
        balances,
        permissions,
    };
    proof {
        assert(Seq::new(out.balances@.len(), |i: int| out.balances@[i]@) =~= Seq::new(
            balances@.len(), |k: int| balances@[k]@));
        assert(Seq::new(out.permissions@.len(), |i: int| out.permissions@[i]@) =~= Seq::new(
            permissions@.len(), |k: int| permissions@[k]@));
        assert(spec_account_information_of_json(j@) == Some(out@));
    }
    Some(out)
}

/// The JSON object of the payload, fields in canonical order.
pub open spec fn spec_account_information_json(v: AccountInformationOutputV) -> JsonV {
    JsonV::Obj(
        seq![
            ("makerCommission".spec_bytes(), JsonV::Num(v.maker_commission)),
            ("takerCommission".spec_bytes(), JsonV::Num(v.taker_commission)),
            ("buyerCommission".spec_bytes(), JsonV::Num(v.buyer_commission)),
            ("sellerCommission".spec_bytes(), JsonV::Num(v.seller_commission)),
            ("canTrade".spec_bytes(), JsonV::Bool(v.can_trade)),
            ("canWithdraw".spec_bytes(), JsonV::Bool(v.can_withdraw)),
            ("canDeposit".spec_bytes(), JsonV::Bool(v.can_deposit)),
            (
                "updateTime".spec_bytes(),
                match v.update_time {
                    Some(t) => JsonV::Num(spec_dec_of_i64(t as int)),
                    None => JsonV::Null,
                },
            ),
            ("accountType".spec_bytes(), JsonV::Str(v.account_type)),
            ("balances".spec_bytes(), JsonV::Arr(v.balances.map_values(|b: AccountBalanceV| spec_balance_json(b)))),
            ("permissions".spec_bytes(), JsonV::Arr(v.permissions.map_values(|p: Seq<u8>| JsonV::Str(p)))),
        ],
    )
}

impl AccountInformationOutput {
    /// Writes the payload back as its JSON object.
    #[verifier::rlimit(100)]
    pub fn to_json(&self) -> (j: Json)
        ensures
            j@ == spec_account_information_json(self@),
    {
        let mut fields: Vec<(Vec<u8>, Json)> = Vec::new();
        fields.push((str_bytes("makerCommission"), Json::Num(self.maker_commission)));
        fields.push((str_bytes("takerCommission"), Json::Num(self.taker_commission)));
        fields.push((str_bytes("buyerCommission"), Json::Num(self.buyer_commission)));
        fields.push((str_bytes("sellerCommission"), Json::Num(self.seller_commission)));
        fields.push((str_bytes("canTrade"), Json::Bool(self.can_trade)));
        fields.push((str_bytes("canWithdraw"), Json::Bool(self.can_withdraw)));
        fields.push((str_bytes("canDeposit"), Json::Bool(self.can_deposit)));
        let ut = match self.update_time {
            Some(t) => Json::Num(Decimal::from_i64(t)),
            None => Json::Null,
        };
        fields.push((str_bytes("updateTime"), ut));
        fields.push((str_bytes("accountType"), Json::Str(copy_bytes(&self.account_type))));
        let mut bitems: Vec<Json> = Vec::new();
        let mut i: usize = 0;
        while i < self.balances.len()
            invariant
                i <= self.balances.len(),
                bitems@.len() == i,
                forall|k: int| 0 <= k < i ==> #[trigger] bitems@[k]@ == spec_balance_json(
                    self.balances@[k]@),
            decreases self.balances.len() - i,
        {
            bitems.push(balance_to_json(&self.balances[i]));
            i = i + 1;
        }
        let ghost bitems_v = bitems@;
        fields.push((str_bytes("balances"), Json::Arr(bitems)));
        let mut pitems: Vec<Json> = Vec::new();
        let mut k: usize = 0;
        while k < self.permissions.len()
            invariant
                k <= self.permissions.len(),
                pitems@.len() == k,
                forall|m: int| 0 <= m < k ==> #[trigger] pitems@[m]@ == JsonV::Str(
                    self.permissions@[m]@),
            decreases self.permissions.len() - k,
        {
            pitems.push(Json::Str(copy_bytes(&self.permissions[k])));
            k = k + 1;
        }
        let ghost pitems_v = pitems@;
        fields.push((str_bytes("permissions"), Json::Arr(pitems)));
        let j = Json::Obj(fields);
        proof {
            let fv = (j@)->Obj_0;
            assert(fv.len() == 11);
            assert forall|n: int| 0 <= n < 11 implies #[trigger] fv[n] == (
                fields@[n].0@, fields@[n].1@) by {};
            let sv = (spec_account_information_json(self@))->Obj_0;
            assert(fv[0] == sv[0]);
            assert(fv[1] == sv[1]);
            assert(fv[2] == sv[2]);
            assert(fv[3] == sv[3]);
            assert(fv[4] == sv[4]);
            assert(fv[5] == sv[5]);
            assert(fv[6] == sv[6]);
            assert(fv[7] == sv[7]);
            assert(fv[8] == sv[8]);
            let jb = fields@[9].1;
            let s1 = (jb@)->Arr_0;
            assert((jb->Arr_0)@ == bitems_v);
            assert(s1.len() == bitems_v.len());
            assert forall|m: int| 0 <= m < s1.len() implies s1[m] == bitems_v[m]@ by {};
            assert(s1 =~= self@.balances.map_values(|b: AccountBalanceV| spec_balance_json(b)));
            assert(fv[9].1 == sv[9].1);
            assert(fv[9] == sv[9]);
            let jp = fields@[10].1;
            let s2 = (jp@)->Arr_0;
            assert((jp->Arr_0)@ == pitems_v);
            assert(s2.len() == pitems_v.len());
            assert forall|m: int| 0 <= m < s2.len() implies s2[m] == pitems_v[m]@ by {};
            assert(s2 =~= self@.permissions.map_values(|p: Seq<u8>| JsonV::Str(p)));
            assert(fv[10].1 == sv[10].1);
            assert(fv[10] == sv[10]);
            assert(fv =~~= sv);
            assert(j@ == spec_account_information_json(self@));
        }
        j
    }
}

} // verus!

verus! {

/// A list of balances, written as JSON objects, reads back as exactly
/// the same list.
pub proof fn lemma_balances_list_round_trip(bs: Seq<AccountBalanceV>)
    ensures
        spec_balances_of(bs.map_values(|b: AccountBalanceV| spec_balance_json(b))) == Some(bs),
    decreases bs.len(),
{
    let m = bs.map_values(|b: AccountBalanceV| spec_balance_json(b));
    if bs.len() == 0 {
        assert(bs =~= Seq::<AccountBalanceV>::empty());
    } else {
        lemma_balances_list_round_trip(bs.drop_last());
        assert(m.drop_last() =~= bs.drop_last().map_values(
            |b: AccountBalanceV| spec_balance_json(b)));
        assert(m.last() == spec_balance_json(bs.last()));
        lemma_balance_round_trip(bs.last());
        assert(bs.drop_last().push(bs.last()) =~= bs);
    }
}

/// A list of permission words, written as JSON strings, reads back as
/// exactly the same list.
pub proof fn lemma_strings_list_round_trip(ps: Seq<Seq<u8>>)
    ensures
        spec_strings_of(ps.map_values(|p: Seq<u8>| JsonV::Str(p))) == Some(ps),
    decreases ps.len(),
{
    let m = ps.map_values(|p: Seq<u8>| JsonV::Str(p));
    if ps.len() == 0 {
        assert(ps =~= Seq::<Seq<u8>>::empty());
    } else {
        lemma_strings_list_round_trip(ps.drop_last());
        assert(m.drop_last() =~= ps.drop_last().map_values(|p: Seq<u8>| JsonV::Str(p)));
        assert(m.last() == JsonV::Str(ps.last()));
        assert(ps.drop_last().push(ps.last()) =~= ps);
    }
}

/// Round trip: the JSON form of an account information payload reads
/// back as exactly the same typed value, field for field.
#[verifier::rlimit(100)]
pub proof fn lemma_account_information_round_trip(v: AccountInformationOutputV)
    ensures
        spec_account_information_of_json(spec_account_information_json(v)) == Some(v),
{
    reveal_strlit("makerCommission");
    reveal_strlit("takerCommission");
    reveal_strlit("buyerCommission");
    reveal_strlit("sellerCommission");
    reveal_strlit("canTrade");
    reveal_strlit("canWithdraw");
    reveal_strlit("canDeposit");
    reveal_strlit("updateTime");
    reveal_strlit("accountType");
    reveal_strlit("balances");
    reveal_strlit("permissions");
    assert(is_ascii("makerCommission"));
    assert(is_ascii("takerCommission"));
    assert(is_ascii("buyerCommission"));
    assert(is_ascii("sellerCommission"));
    assert(is_ascii("canTrade"));
    assert(is_ascii("canWithdraw"));
    assert(is_ascii("canDeposit"));
    assert(is_ascii("updateTime"));
    assert(is_ascii("accountType"));
    assert(is_ascii("balances"));
    assert(is_ascii("permissions"));
    assert("makerCommission".spec_bytes().len() == 15);
    assert("takerCommission".spec_bytes().len() == 15);
    assert("buyerCommission".spec_bytes().len() == 15);
    assert("sellerCommission".spec_bytes().len() == 16);
    assert("canTrade".spec_bytes().len() == 8);
    assert("canWithdraw".spec_bytes().len() == 11);
    assert("canDeposit".spec_bytes().len() == 10);
    assert("updateTime".spec_bytes().len() == 10);
    assert("accountType".spec_bytes().len() == 11);
    assert("balances".spec_bytes().len() == 8);
    assert("permissions".spec_bytes().len() == 11);
    assert("makerCommission".spec_bytes()[0] == 'm' as u8);
    assert("takerCommission".spec_bytes()[0] == 't' as u8);
    assert("buyerCommission".spec_bytes()[0] == 'b' as u8);
    assert("canTrade".spec_bytes()[0] == 'c' as u8);
    assert("canWithdraw".spec_bytes()[0] == 'c' as u8);
    assert("canDeposit".spec_bytes()[0] == 'c' as u8);
    assert("updateTime".spec_bytes()[0] == 'u' as u8);
    assert("accountType".spec_bytes()[0] == 'a' as u8);
    assert("balances".spec_bytes()[0] == 'b' as u8);
    assert("permissions".spec_bytes()[0] == 'p' as u8);
    let fs = (spec_account_information_json(v))->Obj_0;
    lemma_lookup_at(fs, "makerCommission".spec_bytes(), 0);
    lemma_lookup_at(fs, "takerCommission".spec_bytes(), 1);
    lemma_lookup_at(fs, "buyerCommission".spec_bytes(), 2);
    lemma_lookup_at(fs, "sellerCommission".spec_bytes(), 3);
    lemma_lookup_at(fs, "canTrade".spec_bytes(), 4);
    lemma_lookup_at(fs, "canWithdraw".spec_bytes(), 5);
    lemma_lookup_at(fs, "canDeposit".spec_bytes(), 6);
    lemma_lookup_at(fs, "updateTime".spec_bytes(), 7);
    lemma_lookup_at(fs, "accountType".spec_bytes(), 8);
    lemma_lookup_at(fs, "balances".spec_bytes(), 9);
    lemma_lookup_at(fs, "permissions".spec_bytes(), 10);
    match v.update_time {
        Some(t) => {
            assert(spec_update_time_of(JsonV::Num(spec_dec_of_i64(t as int))) == Some(
                Some(t)));
        },
        None => {
            assert(spec_update_time_of(JsonV::Null) == Some(None::<i64>));
        },
    }
    lemma_balances_list_round_trip(v.balances);
    lemma_strings_list_round_trip(v.permissions);
    assert(spec_account_information_of_json(spec_account_information_json(v)) == Some(v));
}

} // verus!

verus! {

/// The JSON value behind a successful account information response.
pub open spec fn account_response_ok(jv: JsonV, out: AccountInformationOutputV) -> bool {
    json_wf(jv) && spec_envelope(jv) is None && spec_account_information_of_json(jv) == Some(out)
}

/// Splits a parsed response into the envelope: the exchange's error
/// when the body carries `{code, msg}`, else the typed payload, else a
/// deserialization failure.
pub fn account_information_response_from_json(j: &Json) -> (r: Result<
    ApiResponse<AccountInformationOutput>,
    ApiV3Error,
>)
    ensures
        match spec_envelope(j@) {
            Some((c, m)) => r matches Ok(ApiResponse::Error(e)) && e.code as int == c && e.msg@
                == m,
            None => match spec_account_information_of_json(j@) {
                Some(out) => r matches Ok(ApiResponse::Success(o)) && o@ == out,
                None => r matches Err(ApiV3Error::Deserialization),
            },
        },
{
    match envelope_error(j) {
        Some(e) => Ok(ApiResponse::Error(e)),
        None => match account_information_from_json(j) {
            Some(out) => Ok(ApiResponse::Success(out)),
            None => Err(ApiV3Error::Deserialization),
        },
    }
}

/// Parses a raw response body into the typed output, the exchange's
/// error, or a deserialization failure. A malformed or truncated body
/// always gives the deserialization kind.
pub fn parse_account_information_response(body: &Vec<u8>) -> (r: Result<
    AccountInformationOutput,
    ApiV3Error,
>)
    ensures
        r matches Ok(out) ==> exists|jv: JsonV| account_response_ok(jv, out@),
        r matches Err(ApiV3Error::Api(e)) ==> exists|jv: JsonV|
            json_wf(jv) && #[trigger] spec_envelope(jv) == Some((e.code as int, e.msg@)),
        forall|jv: JsonV| json_wf(jv) && body@ == spec_ser_json(jv) ==> (match spec_envelope(
            jv) {
            Some(cm) => r matches Err(ApiV3Error::Api(e)) && e.code as int == cm.0 && e.msg@
                == cm.1,
            None => match spec_account_information_of_json(jv) {
                Some(out) => r matches Ok(o) && o@ == out,
                None => r matches Err(ApiV3Error::Deserialization),
            },
        }),
{
    match crate::json::parse_json(body) {
        Some(j) => {
            match account_information_response_from_json(&j) {
                Ok(resp) => {
                    let r = resp.into_api_result();
                    proof {
                        match r {
                            Ok(ref out) => {
                                assert(account_response_ok(j@, out@));
                            },
                            Err(ref e) => {
                                match e {
                                    ApiV3Error::Api(ref ae) => {
                                        assert(spec_envelope(j@) == Some(
                                            (ae.code as int, ae.msg@)));
                                    },
                                    _ => {},
                                }
                            },
                        }
                        assert forall|jv: JsonV| json_wf(jv) && body@ == spec_ser_json(jv)
                            implies (match spec_envelope(jv) {
                            Some(cm) => r matches Err(ApiV3Error::Api(e)) && e.code as int
                                == cm.0 && e.msg@ == cm.1,
                            None => match spec_account_information_of_json(jv) {
                                Some(out) => r matches Ok(o) && o@ == out,
                                None => r matches Err(ApiV3Error::Deserialization),
                            },
                        }) by {
                            assert(j@ == jv);
                        };
                    }
                    r
                },
                Err(e) => {
                    proof {
                        assert forall|jv: JsonV| json_wf(jv) && body@ == spec_ser_json(jv)
                            implies spec_envelope(jv) is None
                            && spec_account_information_of_json(jv) is None by {
                            assert(j@ == jv);
                        };
                    }
                    Err(e)
                },
            }
        },
        None => {
            proof {
                assert forall|jv: JsonV| json_wf(jv) && body@ == spec_ser_json(jv)
                    implies false by {};
            }
            Err(ApiV3Error::Deserialization)
        },
    }
}

} // verus!
