use vstd::prelude::*;

use crate::Place;
use vstd::string::StringExecFns;

verus! {

/// Fixed descriptive record for the tradeable currency.
pub struct FungibleTokenMetadata {
    pub version: String,
    pub name: String,
    pub symbol: String,
    pub url: String,
    pub decimals: u8,
}

/// Supplier of the static metadata record; needs no state access.
pub trait FungibleTokenMetadataProvider {
    fn ft_metadata() -> (r: FungibleTokenMetadata)
        ensures
            r.version@ == "0.1.0"@,
            r.name@ == "Banana"@,
            r.symbol@ == "BANANA"@,
            r.url@ == "https://pixelboard.example"@,
            r.decimals == 18,
    ;
}

impl FungibleTokenMetadataProvider for Place {
    fn ft_metadata() -> (r: FungibleTokenMetadata) {
        FungibleTokenMetadata {
            version: String::from_str("0.1.0"),
            name: String::from_str("Banana"),
            symbol: String::from_str("BANANA"),
            url: String::from_str("https://pixelboard.example"),
            decimals: 18,
        }
    }
}

} // verus!
