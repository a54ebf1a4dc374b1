use crate::error::{ErrorView, LoggerError};
use vstd::prelude::*;
use vstd::string::*;

verus! {

/// The Gamma REST API.
pub const GAMMA_API_BASE: &'static str = "https://gamma-api.polymarket.com";

/// The address of the market with `slug` under the API at `base_url`.
pub fn market_url(base_url: &str, slug: &str) -> (url: String)
    ensures
        url@ == base_url@ + "/markets/slug/"@ + slug@,
{
    let mut url = String::from_str(base_url);
    url.append("/markets/slug/");
    url.append(slug);
    url
}

/// The answer to a market lookup: a failed HTTP status means the market with
/// `slug` was not found.
pub fn check_market_status(slug: &str, success: bool) -> (r: Result<(), LoggerError>)
    ensures
        success ==> r is Ok,
        !success ==> (r matches Err(e) && e@ == ErrorView::MarketNotFound(slug@)),
{
    if !success {
        return Err(LoggerError::MarketNotFound(String::from_str(slug)));
    }
    Ok(())
}

} // verus!
