//! The instrument metadata that the exchange publishes.
use vstd::prelude::*;
use vstd::string::*;

verus! {

pub struct Token {
    pub name: String,
    pub sz_decimals: u8,
    pub wei_decimals: u8,
    pub index: u32,
    pub token_id: String,
    pub is_canonical: bool,
    pub evm_contract: Option<String>,
    pub full_name: Option<String>,
}

/// A spot pair: its wire name and the indices of its two tokens.
pub struct Universe {
    pub name: String,
    pub tokens: Vec<u32>,
    pub index: u32,
    pub is_canonical: bool,
}

pub struct MarketData {
    pub day_ntl_vlm: String,
    pub mark_px: String,
    pub mid_px: String,
    pub prev_day_px: String,
}

pub struct SpotMetaResponse {
    pub tokens: Vec<Token>,
    pub universe: Vec<Universe>,
}

pub struct SpotAssetResponse {
    pub tokens: Vec<Token>,
    pub universe: Vec<Universe>,
    pub market_data: Vec<MarketData>,
}

/// A perpetual market, named on the wire as it is shown.
pub struct PerpAsset {
    pub name: String,
}

pub struct PerpMetaResponse {
    pub universe: Vec<PerpAsset>,
}

/// Whether every token index of a pair names a listed token, and there are at least two.
pub open spec fn pair_tokens_valid(tokens: Seq<Token>, u: Universe) -> bool {
    &&& u.tokens@.len() >= 2
    &&& forall|i: int| 0 <= i < u.tokens@.len() ==> (#[trigger] u.tokens@[i] as int) < tokens.len()
}

/// `BASE/QUOTE`, from the names of a pair's first two tokens.
pub open spec fn pair_name(tokens: Seq<Token>, u: Universe) -> Seq<char> {
    tokens[u.tokens@[0] as int].name@ + "/"@ + tokens[u.tokens@[1] as int].name@
}

/// Checks a pair's token indices.
pub fn check_pair_tokens(tokens: &Vec<Token>, u: &Universe) -> (r: bool)
    ensures
        r == pair_tokens_valid(tokens@, *u),
{
    if u.tokens.len() < 2 {
        return false;
    }
    let mut i: usize = 0;
    while i < u.tokens.len()
        invariant
            i <= u.tokens@.len(),
            forall|j: int| 0 <= j < i ==> (#[trigger] u.tokens@[j] as int) < tokens@.len(),
        decreases u.tokens.len() - i,
    {
        if u.tokens[i] as usize >= tokens.len() {
            return false;
        }
        i = i + 1;
    }
    true
}

/// Builds a pair's `BASE/QUOTE` name.
pub fn make_pair_name(tokens: &Vec<Token>, u: &Universe) -> (r: String)
    requires
        pair_tokens_valid(tokens@, *u),
    ensures
        r@ == pair_name(tokens@, *u),
{
    let base = tokens[u.tokens[0] as usize].name.clone();
    let quote = tokens[u.tokens[1] as usize].name.as_str();
    let mut out = base;
    out.append("/");
    out.append(quote);
    out
}

} // verus!
