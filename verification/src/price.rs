//! The closing price of a day, as the price service gives it.
//!
//! The service is asked for one daily candle that starts on the day. It
//! answers with a JSON array of candles; the price is the member
//! `price_close` of the first, where that is a whole number.

use vstd::prelude::*;
use vstd::string::*;
use crate::calendar::{day_text, day_text_of};
use crate::decimal::{decimal_i32, parse_i32};
use crate::machine::Reply;

verus! {

/// Why an answer of the price service gives no price.
#[derive(Debug, Clone, Copy, PartialEq, Eq)]
pub enum PriceError {
    /// The answer is not a JSON document.
    NotJson,
    /// The closing price is missing, or is no whole number that an `i32`
    /// holds.
    NotAWholePrice,
}

/// The address that is asked for the daily candle that starts on `date`.
pub open spec fn price_url_of(date: Seq<char>) -> Seq<char> {
    "https://rest.coinapi.io/v1/ohlcv/BITSTAMP_SPOT_BTC_USD/history?period_id=1DAY&time_start="@
        + date + "&limit=1"@
}

/// The address that is asked for the daily candle that starts on `date`, a
/// calendar date written as `YYYY-MM-DD`.
pub fn historical_price_url(date: &str) -> (url: String)
    ensures
        url@ == price_url_of(date@),
{
    let mut url = String::from_str(
        "https://rest.coinapi.io/v1/ohlcv/BITSTAMP_SPOT_BTC_USD/history?period_id=1DAY&time_start=",
    );
    url.append(date);
    url.append("&limit=1");
    url
}

/// The address that is asked for the closing price of `day`; none for a day
/// that has no calendar date.
pub fn day_price_url(day: i64) -> (url: Option<String>)
    ensures
        match day_text_of(day) {
            Some(date) => url matches Some(address) && address@ == price_url_of(date),
            None => url is None,
        },
{
    match day_text(day) {
        Some(date) => Some(historical_price_url(date.as_str())),
        None => None,
    }
}

/// Declares `serde_json::Error`, the error with which serde_json refuses a
/// text. The library carries it from the call to the place where it names
/// its own error, and reads nothing of it.
#[verifier::external_type_specification]
#[verifier::external_body]
pub struct ExJsonError(serde_json::Error);

/// What the serde_json crate makes of `body`: where `body` is a JSON
/// document, the compact JSON text of the member `key` of the element `index`
/// of that document, which is `null` where the document is no array, has no
/// such element, or the element is no object with such a member; and `None`
/// where `body` is no JSON document.
pub uninterp spec fn json_member_text(body: Seq<char>, index: int, key: Seq<char>) -> Option<
    Seq<char>,
>;

/// Calls `serde_json::from_str` for a `serde_json::Value`, indexes the value
/// with `index` and then with `key`, and calls `to_string` on what is found.
/// Trusted: the text, or the failure to read `body`, is the one that those
/// calls give, which the library knows only by the name `json_member_text`.
#[verifier::external_body]
fn member_text(body: &str, index: usize, key: &str) -> (text: Result<String, serde_json::Error>)
    ensures
        text is Ok <==> json_member_text(body@, index as int, key@) is Some,
        text matches Ok(t) ==> json_member_text(body@, index as int, key@) == Some(t@),
{
    match serde_json::from_str::<serde_json::Value>(body) {
        Ok(document) => Ok(document[index][key].to_string()),
        Err(error) => Err(error),
    }
}

/// The price that the text of a closing price stands for.
pub open spec fn price_of_text(text: Seq<char>) -> Result<i32, PriceError> {
    match decimal_i32(text) {
        Some(price) => Ok(price),
        None => Err(PriceError::NotAWholePrice),
    }
}

/// The price that an answer gives, from the text of its closing price.
pub open spec fn price_of_member(member: Option<Seq<char>>) -> Result<i32, PriceError> {
    match member {
        Some(text) => price_of_text(text),
        None => Err(PriceError::NotJson),
    }
}

/// Reads a closing price from its JSON text: a whole number in decimal
/// digits, within the range of `i32`. Anything else, `null` and a number
/// with a fraction or an exponent among it, is no price.
pub fn price_from_text(text: &str) -> (price: Result<i32, PriceError>)
    ensures
        price == price_of_text(text@),
{
    match parse_i32(text) {
        Some(price) => Ok(price),
        None => Err(PriceError::NotAWholePrice),
    }
}

/// Reads the closing price from an answer of the price service: the member
/// `price_close` of the first candle.
pub fn parse_closing_price(body: &str) -> (price: Result<i32, PriceError>)
    ensures
        price == price_of_member(json_member_text(body@, 0, "price_close"@)),
{
    match member_text(body, 0, "price_close") {
        Ok(text) => price_from_text(text.as_str()),
        Err(_) => Err(PriceError::NotJson),
    }
}

/// The reply that an answer of the price service makes: its price, or, where
/// it gives none, that the day's price is unavailable.
pub fn price_reply(price: Result<i32, PriceError>) -> (reply: Reply)
    ensures
        reply == match price {
            Ok(value) => Reply::Price(value),
            Err(_) => Reply::PriceUnavailable,
        },
{
    match price {
        Ok(value) => Reply::Price(value),
        Err(_) => Reply::PriceUnavailable,
    }
}

} // verus!
