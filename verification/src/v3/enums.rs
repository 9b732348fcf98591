//! Order sides and order types, with their exact wire words.

use vstd::prelude::*;
use vstd::string::StringSliceAdditionalSpecFns;
use crate::bytes::str_bytes;

verus! {

#[derive(Clone, Copy, Debug, PartialEq, Eq, Structural)]
pub enum OrderSide {
    Buy,
    Sell,
}

#[derive(Clone, Copy, Debug, PartialEq, Eq, Structural)]
pub enum OrderType {
    Limit,
    Market,
    LimitMaker,
    ImmediateOrCancel,
    FillOrKill,
}

impl OrderSide {
    pub open spec fn spec_word(&self) -> Seq<u8> {
        match self {
            OrderSide::Buy => "BUY".spec_bytes(),
            OrderSide::Sell => "SELL".spec_bytes(),
        }
    }

    /// The exact wire word of the side.
    pub fn to_bytes(&self) -> (r: Vec<u8>)
        ensures
            r@ == self.spec_word(),
    {
        match self {
            OrderSide::Buy => str_bytes("BUY"),
            OrderSide::Sell => str_bytes("SELL"),
        }
    }
}

/// The side a wire word denotes, if any.
pub open spec fn spec_side_of(s: Seq<u8>) -> Option<OrderSide> {
    if s == "BUY".spec_bytes() {
        Some(OrderSide::Buy)
    } else if s == "SELL".spec_bytes() {
        Some(OrderSide::Sell)
    } else {
        None
    }
}

pub fn side_of_bytes(s: &Vec<u8>) -> (r: Option<OrderSide>)
    ensures
        r == spec_side_of(s@),
{
    if crate::bytes::bytes_eq(s, &str_bytes("BUY")) {
        Some(OrderSide::Buy)
    } else if crate::bytes::bytes_eq(s, &str_bytes("SELL")) {
        Some(OrderSide::Sell)
    } else {
        None
    }
}

impl OrderType {
    pub open spec fn spec_word(&self) -> Seq<u8> {
        match self {
            OrderType::Limit => "LIMIT".spec_bytes(),
            OrderType::Market => "MARKET".spec_bytes(),
            OrderType::LimitMaker => "LIMIT_MAKER".spec_bytes(),
            OrderType::ImmediateOrCancel => "IMMEDIATE_OR_CANCEL".spec_bytes(),
            OrderType::FillOrKill => "FILL_OR_KILL".spec_bytes(),
        }
    }

    /// The exact wire word of the order type.
    pub fn to_bytes(&self) -> (r: Vec<u8>)
        ensures
            r@ == self.spec_word(),
    {
        match self {
            OrderType::Limit => str_bytes("LIMIT"),
            OrderType::Market => str_bytes("MARKET"),
            OrderType::LimitMaker => str_bytes("LIMIT_MAKER"),
            OrderType::ImmediateOrCancel => str_bytes("IMMEDIATE_OR_CANCEL"),
            OrderType::FillOrKill => str_bytes("FILL_OR_KILL"),
        }
    }
}

/// The order type a wire word denotes, if any.
pub open spec fn spec_order_type_of(s: Seq<u8>) -> Option<OrderType> {
    if s == "LIMIT".spec_bytes() {
        Some(OrderType::Limit)
    } else if s == "MARKET".spec_bytes() {
        Some(OrderType::Market)
    } else if s == "LIMIT_MAKER".spec_bytes() {
        Some(OrderType::LimitMaker)
    } else if s == "IMMEDIATE_OR_CANCEL".spec_bytes() {
        Some(OrderType::ImmediateOrCancel)
    } else if s == "FILL_OR_KILL".spec_bytes() {
        Some(OrderType::FillOrKill)
    } else {
        None
    }
}

pub fn order_type_of_bytes(s: &Vec<u8>) -> (r: Option<OrderType>)
    ensures
        r == spec_order_type_of(s@),
{
    if crate::bytes::bytes_eq(s, &str_bytes("LIMIT")) {
        Some(OrderType::Limit)
    } else if crate::bytes::bytes_eq(s, &str_bytes("MARKET")) {
        Some(OrderType::Market)
    } else if crate::bytes::bytes_eq(s, &str_bytes("LIMIT_MAKER")) {
        Some(OrderType::LimitMaker)
    } else if crate::bytes::bytes_eq(s, &str_bytes("IMMEDIATE_OR_CANCEL")) {
        Some(OrderType::ImmediateOrCancel)
    } else if crate::bytes::bytes_eq(s, &str_bytes("FILL_OR_KILL")) {
        Some(OrderType::FillOrKill)
    } else {
        None
    }
}

/// Each side's wire word maps back to that side.
pub proof fn lemma_side_word_round_trip(side: OrderSide)
    ensures
        spec_side_of(side.spec_word()) == Some(side),
{
    reveal_strlit("BUY");
    reveal_strlit("SELL");
    assert(vstd::string::is_ascii("BUY"));
    assert(vstd::string::is_ascii("SELL"));
}

/// Each order type's wire word maps back to that type.
pub proof fn lemma_order_type_word_round_trip(t: OrderType)
    ensures
        spec_order_type_of(t.spec_word()) == Some(t),
{
    reveal_strlit("LIMIT");
    reveal_strlit("MARKET");
    reveal_strlit("LIMIT_MAKER");
    reveal_strlit("IMMEDIATE_OR_CANCEL");
    reveal_strlit("FILL_OR_KILL");
    assert(vstd::string::is_ascii("LIMIT"));
    assert(vstd::string::is_ascii("MARKET"));
    assert(vstd::string::is_ascii("LIMIT_MAKER"));
    assert(vstd::string::is_ascii("IMMEDIATE_OR_CANCEL"));
    assert(vstd::string::is_ascii("FILL_OR_KILL"));
}

} // verus!
