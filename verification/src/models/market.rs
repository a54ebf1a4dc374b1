use vstd::prelude::*;

verus! {

/// A market as the Gamma API describes it.
pub struct MarketInfo {
    pub id: String,
    pub slug: String,
    /// The outcome token ids, outcome 0 first.
    pub clob_token_ids: Vec<String>,
    /// The outcome labels, outcome 0 first.
    pub outcomes: Vec<String>,
    pub accepting_orders_timestamp: String,
    pub accepting_orders: bool,
}

/// What is kept with each market's logged data.
pub struct MarketMetadata {
    pub market_id: String,
    pub slug: String,
    /// Maps outcome 0/1 to its full token id.
    pub asset_id_mapping: Vec<String>,
    /// Maps outcome 0/1 to its label.
    pub outcome_label_mapping: Vec<String>,
}

impl MarketMetadata {
    /// The metadata of a market: its id, slug, token ids and outcome labels.
    pub fn from_market_info(info: MarketInfo) -> (meta: Self)
        ensures
            meta.market_id == info.id,
            meta.slug == info.slug,
            meta.asset_id_mapping@ == info.clob_token_ids@,
            meta.outcome_label_mapping@ == info.outcomes@,
    {
        MarketMetadata {
            market_id: info.id,
            slug: info.slug,
            asset_id_mapping: info.clob_token_ids,
            outcome_label_mapping: info.outcomes,
        }
    }
}

} // verus!
