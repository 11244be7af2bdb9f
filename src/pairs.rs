//! Lookup in both directions between shown pair names (`HYPE/USDC`) and wire codes (`@107`).
use vstd::prelude::*;
use vstd::string::*;
use crate::keyed::{keys_unique, key_map, key_names, put, names_of, find_key, lemma_value_at_index, lemma_key_names};
use crate::meta::{SpotMetaResponse, Token, Universe, pair_tokens_valid, pair_name, check_pair_tokens, make_pair_name};

verus! {

pub open spec fn text_values(m: Map<Seq<char>, String>) -> Map<Seq<char>, Seq<char>> {
    m.map_values(|v: String| v@)
}

/// Both directions of the symbol table. Each name appears once in each list.
pub struct TokenManager {
    symbol_to_internal: Vec<(String, String)>,
    internal_to_symbol: Vec<(String, String)>,
}

/// Whether a wire name is a code (`@` and a number) rather than a shown name.
pub open spec fn is_code_name(name: Seq<char>) -> bool {
    name.len() > 0 && name[0] == '@'
}

/// The (symbol, code) entry of a spot pair: a coded pair is shown by its token
/// names, any other pair by its own name.
pub open spec fn spot_entry(tokens: Seq<Token>, u: Universe) -> Option<(Seq<char>, Seq<char>)> {
    if is_code_name(u.name@) {
        if pair_tokens_valid(tokens, u) {
            Some((pair_name(tokens, u), u.name@))
        } else {
            None
        }
    } else {
        Some((u.name@, u.name@))
    }
}

/// Symbol to code, after entering each pair in order.
pub open spec fn spot_codes(tokens: Seq<Token>, us: Seq<Universe>) -> Map<Seq<char>, Seq<char>>
    decreases us.len(),
{
    if us.len() == 0 {
        Map::empty()
    } else {
        let e = spot_entry(tokens, us.last())->0;
        spot_codes(tokens, us.drop_last()).insert(e.0, e.1)
    }
}

/// Code to symbol, after entering each pair in order.
pub open spec fn spot_symbols(tokens: Seq<Token>, us: Seq<Universe>) -> Map<Seq<char>, Seq<char>>
    decreases us.len(),
{
    if us.len() == 0 {
        Map::empty()
    } else {
        let e = spot_entry(tokens, us.last())->0;
        spot_symbols(tokens, us.drop_last()).insert(e.1, e.0)
    }
}

/// Whether a wire name is a code.
pub fn is_code(name: &str) -> (r: bool)
    ensures
        r == is_code_name(name@),
{
    name.unicode_len() > 0 && name.get_char(0) == '@'
}

impl TokenManager {
    /// Symbol to code.
    pub closed spec fn codes(&self) -> Map<Seq<char>, Seq<char>> {
        text_values(key_map(self.symbol_to_internal@))
    }

    /// Code to symbol.
    pub closed spec fn symbols(&self) -> Map<Seq<char>, Seq<char>> {
        text_values(key_map(self.internal_to_symbol@))
    }

    pub closed spec fn wf(&self) -> bool {
        keys_unique(self.symbol_to_internal@) && keys_unique(self.internal_to_symbol@)
    }

    pub fn new() -> (r: TokenManager)
        ensures
            r.wf(),
            r.codes() == Map::<Seq<char>, Seq<char>>::empty(),
            r.symbols() == Map::<Seq<char>, Seq<char>>::empty(),
    {
        let r = TokenManager { symbol_to_internal: Vec::new(), internal_to_symbol: Vec::new() };
        assert(r.codes() =~= Map::<Seq<char>, Seq<char>>::empty());
        assert(r.symbols() =~= Map::<Seq<char>, Seq<char>>::empty());
        r
    }

    /// Records that `symbol` is sent on the wire as `internal_code`, in both directions.
    pub fn add_mapping(&mut self, symbol: &str, internal_code: &str)
        requires
            old(self).wf(),
        ensures
            final(self).wf(),
            final(self).codes() == old(self).codes().insert(symbol@, internal_code@),
            final(self).symbols() == old(self).symbols().insert(internal_code@, symbol@),
    {
        let s1 = symbol.to_owned();
        let c1 = internal_code.to_owned();
        let ghost m0 = key_map(self.symbol_to_internal@);
        put(&mut self.symbol_to_internal, s1, c1);
        assert(text_values(m0.insert(symbol@, c1)) =~= text_values(m0).insert(symbol@, internal_code@));
        let c2 = internal_code.to_owned();
        let s2 = symbol.to_owned();
        let ghost n0 = key_map(self.internal_to_symbol@);
        put(&mut self.internal_to_symbol, c2, s2);
        assert(text_values(n0.insert(internal_code@, s2)) =~= text_values(n0).insert(internal_code@, symbol@));
    }

    /// The wire code of a shown symbol.
    pub fn get_internal_code(&self, symbol: &str) -> (r: Option<&String>)
        requires
            self.wf(),
        ensures
            r matches Some(c) ==> self.codes().contains_key(symbol@) && self.codes()[symbol@] == c@,
            r is None ==> !self.codes().contains_key(symbol@),
    {
        match find_key(&self.symbol_to_internal, symbol) {
            Some(i) => {
                proof {
                    lemma_value_at_index(self.symbol_to_internal@, i as int);
                }
                Some(&self.symbol_to_internal[i].1)
            },
            None => None,
        }
    }

    /// The shown symbol of a wire code.
    pub fn get_symbol(&self, internal_code: &str) -> (r: Option<&String>)
        requires
            self.wf(),
        ensures
            r matches Some(s) ==> self.symbols().contains_key(internal_code@) && self.symbols()[internal_code@] == s@,
            r is None ==> !self.symbols().contains_key(internal_code@),
    {
        match find_key(&self.internal_to_symbol, internal_code) {
            Some(i) => {
                proof {
                    lemma_value_at_index(self.internal_to_symbol@, i as int);
                }
                Some(&self.internal_to_symbol[i].1)
            },
            None => None,
        }
    }

    /// Every known symbol, once each.
    pub fn list_available_pairs(&self) -> (r: Vec<String>)
        requires
            self.wf(),
        ensures
            forall|k: Seq<char>| #[trigger] self.codes().contains_key(k) <==> r@.map_values(|s: String| s@).contains(k),
            r@.map_values(|s: String| s@).no_duplicates(),
    {
        let r = names_of(&self.symbol_to_internal);
        proof {
            lemma_key_names(self.symbol_to_internal@);
            let names = key_names(self.symbol_to_internal@);
            assert forall|a: int, b: int| 0 <= a < names.len() && 0 <= b < names.len() && a != b implies names[a] != names[b] by {
                if a < b {
                    assert(self.symbol_to_internal@[a].0@ != self.symbol_to_internal@[b].0@);
                } else {
                    assert(self.symbol_to_internal@[b].0@ != self.symbol_to_internal@[a].0@);
                }
            }
        }
        r
    }

    /// The table of a spot-metadata snapshot: each pair entered in order. None
    /// when a coded pair names fewer than two tokens or a token that is not listed.
    pub fn from_spot_meta(meta: &SpotMetaResponse) -> (r: Option<TokenManager>)
        ensures
            r is Some <==> forall|i: int| 0 <= i < meta.universe@.len() ==> (#[trigger] spot_entry(meta.tokens@, meta.universe@[i])) is Some,
            r matches Some(m) ==> m.wf() && m.codes() == spot_codes(meta.tokens@, meta.universe@)
                && m.symbols() == spot_symbols(meta.tokens@, meta.universe@),
    {
        let mut m = TokenManager::new();
        let mut i: usize = 0;
        while i < meta.universe.len()
            invariant
                i <= meta.universe@.len(),
                m.wf(),
                forall|j: int| 0 <= j < i ==> (#[trigger] spot_entry(meta.tokens@, meta.universe@[j])) is Some,
                m.codes() == spot_codes(meta.tokens@, meta.universe@.subrange(0, i as int)),
                m.symbols() == spot_symbols(meta.tokens@, meta.universe@.subrange(0, i as int)),
            decreases meta.universe.len() - i,
        {
            let u = &meta.universe[i];
            let ghost pre = meta.universe@.subrange(0, i + 1);
            assert(pre.drop_last() =~= meta.universe@.subrange(0, i as int));
            assert(pre.last() == meta.universe@[i as int]);
            let coded = is_code(u.name.as_str());
            if coded {
                if !check_pair_tokens(&meta.tokens, u) {
                    assert(spot_entry(meta.tokens@, meta.universe@[i as int]) is None);
                    return None;
                }
                let pair = make_pair_name(&meta.tokens, u);
                m.add_mapping(pair.as_str(), u.name.as_str());
            } else {
                m.add_mapping(u.name.as_str(), u.name.as_str());
            }
            i = i + 1;
        }
        assert(meta.universe@.subrange(0, meta.universe@.len() as int) =~= meta.universe@);
        Some(m)
    }
}

} // verus!
