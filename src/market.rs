//! Symbol tables kept apart for spot and perpetual markets, with each
//! instrument's asset index.
use vstd::prelude::*;
use crate::keyed::{keys_unique, key_map, key_names, put, names_of, find_key, lemma_value_at_index, lemma_key_names};
use crate::meta::{SpotMetaResponse, PerpMetaResponse, Token, Universe, pair_tokens_valid, pair_name, check_pair_tokens, make_pair_name};
use crate::pairs::text_values;

verus! {

/// Spot asset indices start here.
pub const SPOT_INDEX_OFFSET: u32 = 10_000;

#[derive(Clone, Copy, Debug, PartialEq, Eq, Hash, Structural)]
pub enum MarketType {
    Spot,
    Perp,
}

/// (symbol, code, index) entries, entered in order.
pub open spec fn table_codes(es: Seq<(Seq<char>, Seq<char>, u32)>) -> Map<Seq<char>, Seq<char>>
    decreases es.len(),
{
    if es.len() == 0 {
        Map::empty()
    } else {
        table_codes(es.drop_last()).insert(es.last().0, es.last().1)
    }
}

pub open spec fn table_symbols(es: Seq<(Seq<char>, Seq<char>, u32)>) -> Map<Seq<char>, Seq<char>>
    decreases es.len(),
{
    if es.len() == 0 {
        Map::empty()
    } else {
        table_symbols(es.drop_last()).insert(es.last().1, es.last().0)
    }
}

pub open spec fn table_indices(es: Seq<(Seq<char>, Seq<char>, u32)>) -> Map<Seq<char>, u32>
    decreases es.len(),
{
    if es.len() == 0 {
        Map::empty()
    } else {
        table_indices(es.drop_last()).insert(es.last().0, es.last().2)
    }
}

/// Each spot pair is shown by its token names, and indexed past the spot offset.
pub open spec fn spot_entries(tokens: Seq<Token>, us: Seq<Universe>) -> Seq<(Seq<char>, Seq<char>, u32)> {
    us.map_values(|u: Universe| (pair_name(tokens, u), u.name@, (u.index + SPOT_INDEX_OFFSET) as u32))
}

/// Each perpetual is shown by its wire name, and indexed by its position.
pub open spec fn perp_entries(names: Seq<Seq<char>>) -> Seq<(Seq<char>, Seq<char>, u32)> {
    names.map(|i: int, n: Seq<char>| (n, n, i as u32))
}

pub open spec fn perp_names(us: Seq<crate::meta::PerpAsset>) -> Seq<Seq<char>> {
    us.map_values(|a: crate::meta::PerpAsset| a.name@)
}

pub open spec fn spot_meta_valid(meta: SpotMetaResponse) -> bool {
    forall|i: int| 0 <= i < meta.universe@.len() ==> pair_tokens_valid(meta.tokens@, #[trigger] meta.universe@[i])
        && meta.universe@[i].index + SPOT_INDEX_OFFSET <= u32::MAX
}

struct MarketTable {
    symbol_to_internal: Vec<(String, String)>,
    internal_to_symbol: Vec<(String, String)>,
    symbol_to_index: Vec<(String, u32)>,
}

impl MarketTable {
    closed spec fn wf(&self) -> bool {
        keys_unique(self.symbol_to_internal@) && keys_unique(self.internal_to_symbol@) && keys_unique(self.symbol_to_index@)
    }

    closed spec fn codes(&self) -> Map<Seq<char>, Seq<char>> {
        text_values(key_map(self.symbol_to_internal@))
    }

    closed spec fn symbols(&self) -> Map<Seq<char>, Seq<char>> {
        text_values(key_map(self.internal_to_symbol@))
    }

    closed spec fn indices(&self) -> Map<Seq<char>, u32> {
        key_map(self.symbol_to_index@)
    }

    fn new() -> (r: MarketTable)
        ensures
            r.wf(),
            r.codes() == Map::<Seq<char>, Seq<char>>::empty(),
            r.symbols() == Map::<Seq<char>, Seq<char>>::empty(),
            r.indices() == Map::<Seq<char>, u32>::empty(),
    {
        let r = MarketTable { symbol_to_internal: Vec::new(), internal_to_symbol: Vec::new(), symbol_to_index: Vec::new() };
        assert(r.codes() =~= Map::<Seq<char>, Seq<char>>::empty());
        assert(r.symbols() =~= Map::<Seq<char>, Seq<char>>::empty());
        assert(r.indices() =~= Map::<Seq<char>, u32>::empty());
        r
    }

    fn add(&mut self, symbol: &str, internal_code: &str, index: u32)
        requires
            old(self).wf(),
        ensures
            final(self).wf(),
            final(self).codes() == old(self).codes().insert(symbol@, internal_code@),
            final(self).symbols() == old(self).symbols().insert(internal_code@, symbol@),
            final(self).indices() == old(self).indices().insert(symbol@, index),
    {
        let ghost m0 = key_map(self.symbol_to_internal@);
        let c1 = internal_code.to_owned();
        put(&mut self.symbol_to_internal, symbol.to_owned(), c1);
        assert(text_values(m0.insert(symbol@, c1)) =~= text_values(m0).insert(symbol@, internal_code@));
        let ghost n0 = key_map(self.internal_to_symbol@);
        let s2 = symbol.to_owned();
        put(&mut self.internal_to_symbol, internal_code.to_owned(), s2);
        assert(text_values(n0.insert(internal_code@, s2)) =~= text_values(n0).insert(internal_code@, symbol@));
        put(&mut self.symbol_to_index, symbol.to_owned(), index);
    }
}

pub struct TokenManager {
    spot: MarketTable,
    perp: MarketTable,
}

impl TokenManager {
    /// Symbol to code, in one market.
    pub closed spec fn codes(&self, market: MarketType) -> Map<Seq<char>, Seq<char>> {
        match market {
            MarketType::Spot => self.spot.codes(),
            MarketType::Perp => self.perp.codes(),
        }
    }

    /// Code to symbol, in one market.
    pub closed spec fn symbols(&self, market: MarketType) -> Map<Seq<char>, Seq<char>> {
        match market {
            MarketType::Spot => self.spot.symbols(),
            MarketType::Perp => self.perp.symbols(),
        }
    }

    /// Symbol to asset index, in one market.
    pub closed spec fn indices(&self, market: MarketType) -> Map<Seq<char>, u32> {
        match market {
            MarketType::Spot => self.spot.indices(),
            MarketType::Perp => self.perp.indices(),
        }
    }

    pub closed spec fn wf(&self) -> bool {
        self.spot.wf() && self.perp.wf()
    }

    pub fn new() -> (r: TokenManager)
        ensures
            r.wf(),
            forall|m: MarketType| #[trigger] r.codes(m) == Map::<Seq<char>, Seq<char>>::empty(),
            forall|m: MarketType| #[trigger] r.symbols(m) == Map::<Seq<char>, Seq<char>>::empty(),
            forall|m: MarketType| #[trigger] r.indices(m) == Map::<Seq<char>, u32>::empty(),
    {
        TokenManager { spot: MarketTable::new(), perp: MarketTable::new() }
    }

    /// Records a symbol of one market with its wire code and asset index.
    pub fn add_mapping(&mut self, market_type: MarketType, symbol: &str, internal_code: &str, index: u32)
        requires
            old(self).wf(),
        ensures
            final(self).wf(),
            final(self).codes(market_type) == old(self).codes(market_type).insert(symbol@, internal_code@),
            final(self).symbols(market_type) == old(self).symbols(market_type).insert(internal_code@, symbol@),
            final(self).indices(market_type) == old(self).indices(market_type).insert(symbol@, index),
            forall|m: MarketType| m != market_type ==> #[trigger] final(self).codes(m) == old(self).codes(m),
            forall|m: MarketType| m != market_type ==> #[trigger] final(self).symbols(m) == old(self).symbols(m),
            forall|m: MarketType| m != market_type ==> #[trigger] final(self).indices(m) == old(self).indices(m),
    {
        match market_type {
            MarketType::Spot => self.spot.add(symbol, internal_code, index),
            MarketType::Perp => self.perp.add(symbol, internal_code, index),
        }
    }

    fn table(&self, market_type: MarketType) -> (r: &MarketTable)
        ensures
            r.wf() == (match market_type {
                MarketType::Spot => self.spot.wf(),
                MarketType::Perp => self.perp.wf(),
            }),
            r.codes() == self.codes(market_type),
            r.symbols() == self.symbols(market_type),
            r.indices() == self.indices(market_type),
            r.symbol_to_internal@ == (match market_type {
                MarketType::Spot => self.spot.symbol_to_internal@,
                MarketType::Perp => self.perp.symbol_to_internal@,
            }),
    {
        match market_type {
            MarketType::Spot => &self.spot,
            MarketType::Perp => &self.perp,
        }
    }

    pub fn get_internal_code(&self, market_type: MarketType, symbol: &str) -> (r: Option<&String>)
        requires
            self.wf(),
        ensures
            r matches Some(c) ==> self.codes(market_type).contains_key(symbol@) && self.codes(market_type)[symbol@] == c@,
            r is None ==> !self.codes(market_type).contains_key(symbol@),
    {
        let t = self.table(market_type);
        match find_key(&t.symbol_to_internal, symbol) {
            Some(i) => {
                proof {
                    lemma_value_at_index(t.symbol_to_internal@, i as int);
                }
                Some(&t.symbol_to_internal[i].1)
            },
            None => None,
        }
    }

    pub fn get_symbol(&self, market_type: MarketType, internal_code: &str) -> (r: Option<&String>)
        requires
            self.wf(),
        ensures
            r matches Some(s) ==> self.symbols(market_type).contains_key(internal_code@) && self.symbols(market_type)[internal_code@] == s@,
            r is None ==> !self.symbols(market_type).contains_key(internal_code@),
    {
        let t = self.table(market_type);
        match find_key(&t.internal_to_symbol, internal_code) {
            Some(i) => {
                proof {
                    lemma_value_at_index(t.internal_to_symbol@, i as int);
                }
                Some(&t.internal_to_symbol[i].1)
            },
            None => None,
        }
    }

    pub fn get_token_index(&self, market_type: MarketType, symbol: &str) -> (r: Option<&u32>)
        requires
            self.wf(),
        ensures
            r matches Some(x) ==> self.indices(market_type).contains_key(symbol@) && self.indices(market_type)[symbol@] == *x,
            r is None ==> !self.indices(market_type).contains_key(symbol@),
    {
        let t = self.table(market_type);
        match find_key(&t.symbol_to_index, symbol) {
            Some(i) => {
                proof {
                    lemma_value_at_index(t.symbol_to_index@, i as int);
                }
                Some(&t.symbol_to_index[i].1)
            },
            None => None,
        }
    }

    /// Every symbol of one market, once each.
    pub fn get_available_symbols(&self, market_type: MarketType) -> (r: Vec<String>)
        requires
            self.wf(),
        ensures
            forall|k: Seq<char>| #[trigger] self.codes(market_type).contains_key(k) <==> r@.map_values(|s: String| s@).contains(k),
            r@.map_values(|s: String| s@).no_duplicates(),
    {
        let t = self.table(market_type);
        let r = names_of(&t.symbol_to_internal);
        proof {
            lemma_key_names(t.symbol_to_internal@);
            let names = key_names(t.symbol_to_internal@);
            assert forall|a: int, b: int| 0 <= a < names.len() && 0 <= b < names.len() && a != b implies names[a] != names[b] by {
                if a < b {
                    assert(t.symbol_to_internal@[a].0@ != t.symbol_to_internal@[b].0@);
                } else {
                    assert(t.symbol_to_internal@[b].0@ != t.symbol_to_internal@[a].0@);
                }
            }
        }
        r
    }
    /// The tables of a metadata snapshot: each spot pair, then each perpetual,
    /// entered in order. None when a spot pair names fewer than two tokens or an
    /// unlisted token, when a spot index passes the largest `u32` after the
    /// offset, or when there are more perpetuals than `u32` indices.
    pub fn from_metas(spot: &SpotMetaResponse, perp: &PerpMetaResponse) -> (r: Option<TokenManager>)
        ensures
            r is Some <==> spot_meta_valid(*spot) && perp.universe@.len() <= u32::MAX + 1,
            r matches Some(m) ==> {
                &&& m.wf()
                &&& m.codes(MarketType::Spot) == table_codes(spot_entries(spot.tokens@, spot.universe@))
                &&& m.symbols(MarketType::Spot) == table_symbols(spot_entries(spot.tokens@, spot.universe@))
                &&& m.indices(MarketType::Spot) == table_indices(spot_entries(spot.tokens@, spot.universe@))
                &&& m.codes(MarketType::Perp) == table_codes(perp_entries(perp_names(perp.universe@)))
                &&& m.symbols(MarketType::Perp) == table_symbols(perp_entries(perp_names(perp.universe@)))
                &&& m.indices(MarketType::Perp) == table_indices(perp_entries(perp_names(perp.universe@)))
            },
    {
        let mut m = TokenManager::new();
        let ghost se = spot_entries(spot.tokens@, spot.universe@);
        let mut i: usize = 0;
        assert(se.subrange(0, 0) =~= Seq::<(Seq<char>, Seq<char>, u32)>::empty());
        while i < spot.universe.len()
            invariant
                i <= spot.universe@.len(),
                se == spot_entries(spot.tokens@, spot.universe@),
                m.wf(),
                forall|j: int| 0 <= j < i ==> pair_tokens_valid(spot.tokens@, #[trigger] spot.universe@[j])
                    && spot.universe@[j].index + SPOT_INDEX_OFFSET <= u32::MAX,
                m.codes(MarketType::Spot) == table_codes(se.subrange(0, i as int)),
                m.symbols(MarketType::Spot) == table_symbols(se.subrange(0, i as int)),
                m.indices(MarketType::Spot) == table_indices(se.subrange(0, i as int)),
                m.codes(MarketType::Perp) == Map::<Seq<char>, Seq<char>>::empty(),
                m.symbols(MarketType::Perp) == Map::<Seq<char>, Seq<char>>::empty(),
                m.indices(MarketType::Perp) == Map::<Seq<char>, u32>::empty(),
            decreases spot.universe.len() - i,
        {
            let u = &spot.universe[i];
            if !check_pair_tokens(&spot.tokens, u) || u.index > u32::MAX - SPOT_INDEX_OFFSET {
                return None;
            }
            let pair = make_pair_name(&spot.tokens, u);
            m.add_mapping(MarketType::Spot, pair.as_str(), u.name.as_str(), u.index + SPOT_INDEX_OFFSET);
            proof {
                let pre = se.subrange(0, i + 1);
                assert(pre.drop_last() =~= se.subrange(0, i as int));
                assert(pre.last() == se[i as int]);
            }
            i = i + 1;
        }
        assert(se.subrange(0, se.len() as int) =~= se);
        let ghost pe = perp_entries(perp_names(perp.universe@));
        let mut k: usize = 0;
        assert(pe.subrange(0, 0) =~= Seq::<(Seq<char>, Seq<char>, u32)>::empty());
        while k < perp.universe.len()
            invariant
                k <= perp.universe@.len(),
                k <= u32::MAX + 1,
                spot_meta_valid(*spot),
                pe == perp_entries(perp_names(perp.universe@)),
                m.wf(),
                m.codes(MarketType::Spot) == table_codes(se),
                m.symbols(MarketType::Spot) == table_symbols(se),
                m.indices(MarketType::Spot) == table_indices(se),
                m.codes(MarketType::Perp) == table_codes(pe.subrange(0, k as int)),
                m.symbols(MarketType::Perp) == table_symbols(pe.subrange(0, k as int)),
                m.indices(MarketType::Perp) == table_indices(pe.subrange(0, k as int)),
            decreases perp.universe.len() - k,
        {
            if k > u32::MAX as usize {
                return None;
            }
            let name = perp.universe[k].name.as_str();
            m.add_mapping(MarketType::Perp, name, name, k as u32);
            proof {
                let pre = pe.subrange(0, k + 1);
                assert(pre.drop_last() =~= pe.subrange(0, k as int));
                assert(pre.last() == pe[k as int]);
            }
            k = k + 1;
        }
        assert(pe.subrange(0, pe.len() as int) =~= pe);
        Some(m)
    }
}

} // verus!
