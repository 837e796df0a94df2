//! Access tokens: the token the gateway presents to the engine, and the
//! client tokens with full or read-only access.
use vstd::prelude::*;
use crate::text::{ascii_chars, decimal, usize_to_string};
use vstd::string::StringExecFns;

verus! {

/// What a client token allows.
#[derive(Clone, Copy, Debug, PartialEq, Eq, Structural)]
pub enum AccessLevel {
    Full,
    ReadOnly,
}

/// The token file as read from disk.
#[derive(Debug)]
pub struct AuthFile {
    pub roomzin_token: String,
    pub full_access_tokens: Vec<String>,
    pub read_only_tokens: Vec<String>,
}

/// The texts of a list of strings.
pub open spec fn texts(list: Seq<String>) -> Seq<Seq<char>> {
    list.map_values(|s: String| s@)
}

/// A set of tokens, each held once.
#[derive(Debug)]
pub struct TokenSet {
    items: Vec<String>,
}

impl View for TokenSet {
    type V = Set<Seq<char>>;

    closed spec fn view(&self) -> Set<Seq<char>> {
        texts(self.items@).to_set()
    }
}

impl TokenSet {
    /// No token is held twice.
    pub closed spec fn wf(&self) -> bool {
        forall|i: int, j: int|
            0 <= i < j < self.items@.len() ==> #[trigger] self.items@[i]@ != #[trigger] self.items@[j]@
    }

    /// The number of distinct tokens.
    pub closed spec fn count(&self) -> nat {
        self.items@.len()
    }

    /// The set of the tokens of `list`.
    pub fn from_list(list: Vec<String>) -> (r: TokenSet)
        ensures
            r.wf(),
            r@ == texts(list@).to_set(),
    {
        let mut set = TokenSet { items: Vec::new() };
        let mut i: usize = 0;
        assert(texts(set.items@).to_set() =~= texts(list@.subrange(0, 0)).to_set());
        while i < list.len()
            invariant
                i <= list@.len(),
                set.wf(),
                set@ == texts(list@.subrange(0, i as int)).to_set(),
            decreases list@.len() - i,
        {
            let ghost before = set@;
            let ghost old_items = set.items@;
            let item = &list[i];
            if !set.contains(item.as_str()) {
                let copy = item.clone();
                set.items.push(copy);
                proof {
                    let n = set.items@.len() - 1;
                    assert(set.items@.drop_last() =~= old_items);
                    assert(texts(set.items@) =~= texts(old_items).push(item@));
                    texts(old_items).lemma_push_to_set_commute(item@);
                    assert forall|a: int, b: int| 0 <= a < b < set.items@.len() implies #[trigger] set.items@[a]@
                        != #[trigger] set.items@[b]@ by {
                        if b == n {
                            assert(texts(old_items)[a] == set.items@[a]@);
                            assert(texts(old_items).contains(set.items@[a]@));
                        }
                    }
                    assert(set@ == before.insert(item@));
                }
            } else {
                assert(before.insert(item@) =~= before);
            }
            proof {
                let prev = list@.subrange(0, i as int);
                let next = list@.subrange(0, i + 1);
                assert(texts(next) =~= texts(prev).push(list@[i as int]@));
                texts(prev).lemma_push_to_set_commute(list@[i as int]@);
                assert(set@ =~= texts(next).to_set());
            }
            i = i + 1;
        }
        assert(list@.subrange(0, list@.len() as int) =~= list@);
        set
    }

    /// The token is in the set.
    pub fn contains(&self, token: &str) -> (r: bool)
        ensures
            r == self@.contains(token@),
    {
        let t: String = String::from_str(token);
        let mut i: usize = 0;
        while i < self.items.len()
            invariant
                i <= self.items@.len(),
                t@ == token@,
                forall|k: int| 0 <= k < i ==> self.items@[k]@ != t@,
            decreases self.items@.len() - i,
        {
            if self.items[i] == t {
                assert(t@ == token@);
                assert(texts(self.items@)[i as int] == token@);
                assert(texts(self.items@).contains(token@));
                return true;
            }
            i = i + 1;
        }
        proof {
            if self@.contains(token@) {
                let k = choose|k: int| 0 <= k < texts(self.items@).len() && texts(self.items@)[k] == token@;
                assert(self.items@[k]@ == t@);
            }
        }
        false
    }

    /// The number of distinct tokens.
    pub fn len(&self) -> (r: usize)
        ensures
            r == self.count(),
    {
        self.items.len()
    }
}

/// The tokens in force.
#[derive(Debug)]
pub struct AuthTokens {
    /// Presented to the engine at login.
    pub roomzin_token: String,
    /// Client tokens with full access.
    pub full_access_tokens: TokenSet,
    /// Client tokens with read-only access.
    pub read_only_tokens: TokenSet,
}

/// Builds the in-memory token sets from the token file.
pub fn build_auth_tokens(file: AuthFile) -> (r: AuthTokens)
    ensures
        r.roomzin_token@ == file.roomzin_token@,
        r.full_access_tokens@ == texts(file.full_access_tokens@).to_set(),
        r.read_only_tokens@ == texts(file.read_only_tokens@).to_set(),
        r.full_access_tokens.wf(),
        r.read_only_tokens.wf(),
{
    let AuthFile { roomzin_token, full_access_tokens, read_only_tokens } = file;
    AuthTokens {
        roomzin_token,
        full_access_tokens: TokenSet::from_list(full_access_tokens),
        read_only_tokens: TokenSet::from_list(read_only_tokens),
    }
}

/// The access level of `token` under `tokens` (`None`: not loaded):
/// full access wins over read-only.
pub open spec fn access_level(tokens: Option<Set<Seq<char>>>, read_only: Option<Set<Seq<char>>>, token: Seq<char>) -> Option<AccessLevel> {
    match (tokens, read_only) {
        (Some(full), Some(ro)) => if full.contains(token) {
            Some(AccessLevel::Full)
        } else if ro.contains(token) {
            Some(AccessLevel::ReadOnly)
        } else {
            None
        },
        _ => None,
    }
}

/// The full-access set of loaded tokens.
pub open spec fn full_set(tokens: Option<&AuthTokens>) -> Option<Set<Seq<char>>> {
    match tokens {
        Some(t) => Some(t.full_access_tokens@),
        None => None,
    }
}

/// The read-only set of loaded tokens.
pub open spec fn read_only_set(tokens: Option<&AuthTokens>) -> Option<Set<Seq<char>>> {
    match tokens {
        Some(t) => Some(t.read_only_tokens@),
        None => None,
    }
}

/// The access level of a client token; `None` when it is in neither list
/// or no tokens are loaded.
pub fn get_access_level(tokens: Option<&AuthTokens>, token: &str) -> (r: Option<AccessLevel>)
    ensures
        r == access_level(full_set(tokens), read_only_set(tokens), token@),
{
    match tokens {
        None => None,
        Some(t) => if t.full_access_tokens.contains(token) {
            Some(AccessLevel::Full)
        } else if t.read_only_tokens.contains(token) {
            Some(AccessLevel::ReadOnly)
        } else {
            None
        },
    }
}

/// A client token is valid when it has some access level.
pub fn validate_rzgate_token(tokens: Option<&AuthTokens>, token: &str) -> (r: bool)
    ensures
        r == access_level(full_set(tokens), read_only_set(tokens), token@) is Some,
{
    get_access_level(tokens, token).is_some()
}

/// The token the gateway presents to the engine.
pub fn get_roomzin_token(tokens: &AuthTokens) -> (r: String)
    ensures
        r@ == tokens.roomzin_token@,
{
    tokens.roomzin_token.clone()
}

/// The tokens in force after loading `tokens` at startup: the first load
/// stays.
pub open spec fn after_init(current: Option<AuthTokens>, tokens: AuthTokens) -> Option<AuthTokens> {
    match current {
        Some(t) => Some(t),
        None => Some(tokens),
    }
}

/// The tokens in force after reloading `tokens`: a reload needs loaded
/// tokens, and replaces them.
pub open spec fn after_reload(current: Option<AuthTokens>, tokens: AuthTokens) -> Option<AuthTokens> {
    match current {
        Some(_) => Some(tokens),
        None => None,
    }
}

/// The access level of a token under the tokens in force.
pub open spec fn level_in(current: Option<AuthTokens>, token: Seq<char>) -> Option<AccessLevel> {
    access_level(
        match current {
            Some(t) => Some(t.full_access_tokens@),
            None => None,
        },
        match current {
            Some(t) => Some(t.read_only_tokens@),
            None => None,
        },
        token,
    )
}

/// The tokens in force, once loaded.
#[derive(Debug)]
pub struct TokenStore {
    pub current: Option<AuthTokens>,
}

impl TokenStore {
    /// A store with no tokens loaded.
    pub fn new() -> (r: TokenStore)
        ensures
            r.current is None,
    {
        TokenStore { current: None }
    }

    /// Loads the tokens at startup; refused when they are already loaded,
    /// leaving the store unchanged.
    pub fn init_tokens(&mut self, tokens: AuthTokens) -> (r: Result<(), String>)
        ensures
            final(self).current == after_init(old(self).current, tokens),
            match old(self).current {
                Some(_) => r matches Err(e) && e@ == "Tokens already loaded"@,
                None => r is Ok,
            },
    {
        if self.current.is_some() {
            return Err("Tokens already loaded".to_owned());
        }
        self.current = Some(tokens);
        Ok(())
    }

    /// Replaces the tokens after the file changed; refused when none were
    /// loaded, leaving the store unchanged.
    pub fn reload_tokens(&mut self, tokens: AuthTokens) -> (r: Result<(), String>)
        ensures
            final(self).current == after_reload(old(self).current, tokens),
            match old(self).current {
                None => r matches Err(e) && e@ == "Auth tokens not initialized"@,
                Some(_) => r is Ok,
            },
    {
        if self.current.is_none() {
            return Err("Auth tokens not initialized".to_owned());
        }
        self.current = Some(tokens);
        Ok(())
    }

    /// The access level of a client token under the tokens in force.
    pub fn access_level_of(&self, token: &str) -> (r: Option<AccessLevel>)
        ensures
            r == level_in(self.current, token@),
    {
        get_access_level(self.current.as_ref(), token)
    }
}

/// The token file changed since it was last read: its modification time,
/// in nanoseconds since the epoch, is later than the one last seen.
pub fn needs_reload(last_modified_nanos: u128, modified_nanos: u128) -> (r: bool)
    ensures
        r == (modified_nanos > last_modified_nanos),
{
    modified_nanos > last_modified_nanos
}

/// A token listed with full access has full access, whichever other list
/// also holds it; a token in neither list has none.
pub proof fn law_full_access_wins(full: Set<Seq<char>>, read_only: Set<Seq<char>>, token: Seq<char>)
    ensures
        full.contains(token) ==> access_level(Some(full), Some(read_only), token) == Some(AccessLevel::Full),
        !full.contains(token) && read_only.contains(token) ==> access_level(Some(full), Some(read_only), token)
            == Some(AccessLevel::ReadOnly),
        !full.contains(token) && !read_only.contains(token) ==> access_level(Some(full), Some(read_only), token)
            is None,
{
}

/// Tokens load once: a second load is refused and the first tokens stay;
/// a reload then puts the new tokens in force, so every access level is
/// read from them; before any load, reloading is refused and no token has
/// access.
pub proof fn law_token_lifecycle(first: AuthTokens, second: AuthTokens, newer: AuthTokens, token: Seq<char>)
    ensures
        after_init(after_init(None, first), second) == Some(first),
        after_reload(after_init(None, first), newer) == Some(newer),
        level_in(after_reload(after_init(None, first), newer), token) == access_level(
            Some(newer.full_access_tokens@),
            Some(newer.read_only_tokens@),
            token,
        ),
        after_reload(None, newer) is None,
        level_in(None, token) is None,
{
}

/// `roomzin: <token>, full_access_count: <n>, read_only_count: <m>` for
/// loaded tokens.
pub open spec fn tokens_summary(t: AuthTokens) -> Seq<char> {
    "roomzin: "@ + t.roomzin_token@ + ", full_access_count: "@ + ascii_chars(decimal(t.full_access_tokens.count()))
        + ", read_only_count: "@ + ascii_chars(decimal(t.read_only_tokens.count()))
}

/// A one-line summary of the loaded tokens, for debugging.
pub fn debug_tokens(tokens: Option<&AuthTokens>) -> (r: Option<String>)
    ensures
        match tokens {
            Some(t) => r matches Some(s) && s@ == tokens_summary(*t),
            None => r is None,
        },
{
    match tokens {
        None => None,
        Some(t) => {
            let mut s = String::from_str("roomzin: ");
            s.append(t.roomzin_token.as_str());
            s.append(", full_access_count: ");
            let full = usize_to_string(t.full_access_tokens.len());
            s.append(full.as_str());
            s.append(", read_only_count: ");
            let ro = usize_to_string(t.read_only_tokens.len());
            s.append(ro.as_str());
            Some(s)
        },
    }
}

} // verus!
