//! Authentication and authorization.
//!
//! Driven from bearer tokens defined in the configuration, keyed by a user id
//! (a broadcaster or reader id). Broadcasters can only create new broadcasts
//! under their own broadcaster id. Readers can read all broadcasts.

use vstd::prelude::*;
use vstd::string::*;
use crate::config::AuthConfig;
use crate::config::ConfigValue;
use crate::config::config_ok;
use crate::config::config_tables;
use crate::config::entry_is_token_list;
use crate::config::entry_tokens;
use crate::config::item_text;
use crate::config::lemma_tables_concat_membership;
use crate::config::lemma_tables_concat_wf;
use crate::config::spec_get_table;
use crate::config::table_has_token;
use crate::config::table_has_user;
use crate::config::tables_wf;
use crate::config::token_at;
use crate::config::token_pos;
use crate::config::tokens_distinct;
use crate::config::users_distinct;
use crate::error::ConfigError;
use crate::error::HandlerErrorKind;
use crate::headers::Headers;
use crate::headers::spec_get_one;
use crate::models::Broadcaster;
use crate::models::Reader;
use crate::text::first_space;
use crate::text::has_space;
use crate::text::seq_eq_ci;
use crate::text::str_eq;
use crate::text::str_eq_ci;

verus! {

/// Grouping/role of authorization.
#[derive(Clone, Copy, Debug, Eq, Hash, PartialEq, Structural)]
pub enum Group {
    Broadcaster,
    Reader,
}

/// The configuration entry name a role's tokens are loaded from.
pub open spec fn spec_config_name(g: Group) -> Seq<char> {
    match g {
        Group::Broadcaster => "broadcaster_auth"@,
        Group::Reader => "reader_auth"@,
    }
}

impl Group {
    /// Entry name in the configuration where this role's tokens are loaded
    /// from.
    pub fn config_name(&self) -> (r: &'static str)
        ensures
            r@ == spec_config_name(*self),
    {
        match *self {
            Group::Broadcaster => "broadcaster_auth",
            Group::Reader => "reader_auth",
        }
    }
}

/// First-match lookup in an association list.
pub open spec fn assoc_lookup<V>(s: Seq<(String, V)>, key: Seq<char>) -> Option<V>
    decreases s.len(),
{
    if s.len() == 0 {
        None
    } else if s[0].0@ == key {
        Some(s[0].1)
    } else {
        assoc_lookup(s.drop_first(), key)
    }
}

proof fn lemma_assoc_lookup_skip<V>(s: Seq<(String, V)>, key: Seq<char>, i: int)
    requires
        0 <= i < s.len(),
        s[i].0@ != key,
        assoc_lookup(s, key) == assoc_lookup(s.skip(i), key),
    ensures
        assoc_lookup(s, key) == assoc_lookup(s.skip(i + 1), key),
{
    assert(s.skip(i).drop_first() =~= s.skip(i + 1));
}

/// Appending a fresh pair leaves every present key bound as before and binds
/// the new key when it was absent.
proof fn lemma_assoc_lookup_push<V>(s: Seq<(String, V)>, key: Seq<char>, p: (String, V))
    ensures
        assoc_lookup(s.push(p), key) == (if assoc_lookup(s, key) is Some {
            assoc_lookup(s, key)
        } else if p.0@ == key {
            Some(p.1)
        } else {
            None
        }),
    decreases s.len(),
{
    if s.len() == 0 {
        assert(s.push(p)[0] == p);
        if p.0@ != key {
            assert(s.push(p).drop_first() =~= s);
        }
    } else {
        assert(s.push(p)[0] == s[0]);
        assert(s.push(p).drop_first() =~= s.drop_first().push(p));
        lemma_assoc_lookup_push(s.drop_first(), key, p);
    }
}

proof fn lemma_assoc_lookup_push_all<V>(s: Seq<(String, V)>, p: (String, V))
    ensures
        forall|key: Seq<char>|
            #[trigger] assoc_lookup(s.push(p), key) == (if assoc_lookup(s, key) is Some {
                assoc_lookup(s, key)
            } else if p.0@ == key {
                Some(p.1)
            } else {
                None
            }),
{
    assert forall|key: Seq<char>|
        #[trigger] assoc_lookup(s.push(p), key) == (if assoc_lookup(s, key) is Some {
            assoc_lookup(s, key)
        } else if p.0@ == key {
            Some(p.1)
        } else {
            None
        }) by {
        lemma_assoc_lookup_push(s, key, p);
    }
}

/// First-match lookup of `key` in `entries`.
fn assoc_find<'a, V>(entries: &'a Vec<(String, V)>, key: &str) -> (r: Option<&'a V>)
    ensures
        match r {
            Some(v) => assoc_lookup(entries@, key@) == Some(*v),
            None => assoc_lookup(entries@, key@) is None,
        },
{
    let n = entries.len();
    let mut i: usize = 0;
    proof {
        assert(entries@.skip(0) =~= entries@);
    }
    while i < n
        invariant
            n == entries@.len(),
            i <= n,
            assoc_lookup(entries@, key@) == assoc_lookup(entries@.skip(i as int), key@),
        decreases n - i,
    {
        let entry = &entries[i];
        proof {
            assert(entries@.skip(i as int)[0] == entries@[i as int]);
        }
        if str_eq(entry.0.as_str(), key) {
            return Some(&entry.1);
        }
        proof {
            lemma_assoc_lookup_skip(entries@, key@, i as int);
        }
        i = i + 1;
    }
    None
}

/// The token registry: tokens mapped to an authorized user id, and user ids
/// to their role. Built once from configuration, then read-only.
#[derive(Debug)]
pub struct BearerTokenAuthenticator {
    users: Vec<(String, String)>,
    groups: Vec<(String, Group)>,
}

impl BearerTokenAuthenticator {
    /// Token to user id, as a map.
    pub closed spec fn users_map(&self) -> Map<Seq<char>, Seq<char>> {
        Map::new(
            |k: Seq<char>| assoc_lookup(self.users@, k) is Some,
            |k: Seq<char>| assoc_lookup(self.users@, k)->Some_0@,
        )
    }

    /// User id to role, as a map.
    pub closed spec fn groups_map(&self) -> Map<Seq<char>, Group> {
        Map::new(
            |k: Seq<char>| assoc_lookup(self.groups@, k) is Some,
            |k: Seq<char>| assoc_lookup(self.groups@, k)->Some_0,
        )
    }

    /// The registry invariant: every registered token's user id has a role.
    pub closed spec fn wf(&self) -> bool {
        forall|t: Seq<char>| #[trigger] self.users_map().contains_key(t)
            ==> self.groups_map().contains_key(self.users_map()[t])
    }
}

/// The table a role's tokens are loaded from.
pub open spec fn spec_table(c: AuthConfig, g: Group) -> Option<Vec<(String, ConfigValue)>> {
    match g {
        Group::Broadcaster => c.broadcaster_auth,
        Group::Reader => c.reader_auth,
    }
}

/// The role an entry of the concatenated tables belongs to: the broadcaster
/// table comes first.
pub open spec fn config_group(c: AuthConfig, i: int) -> Group {
    if i < c.broadcaster_auth->Some_0@.len() {
        Group::Broadcaster
    } else {
        Group::Reader
    }
}

/// Loading a table into a registry state succeeds exactly when every entry's
/// value is an array of strings and nothing collides: no user id or token
/// twice within the table, none already registered.
pub open spec fn load_ok(
    users0: Map<Seq<char>, Seq<char>>,
    groups0: Map<Seq<char>, Group>,
    t: Seq<(String, ConfigValue)>,
) -> bool {
    &&& tables_wf(t)
    &&& users_distinct(t)
    &&& tokens_distinct(t)
    &&& forall|i: int| 0 <= i < t.len() ==> !groups0.contains_key(#[trigger] t[i].0@)
    &&& forall|i: int, k: int|
        token_pos(t, i, k) ==> !users0.contains_key(#[trigger] token_at(t, i, k))
}

/// The registry a configuration determines: each user id of either table has
/// that table's role, each configured token resolves to the entry's user id,
/// and nothing else is registered.
pub open spec fn registry_of_config(
    users: Map<Seq<char>, Seq<char>>,
    groups: Map<Seq<char>, Group>,
    c: AuthConfig,
) -> bool {
    let all = config_tables(c);
    &&& (forall|u: Seq<char>| #[trigger] groups.contains_key(u) <==> table_has_user(all, u))
    &&& (forall|i: int| 0 <= i < all.len() ==> groups[#[trigger] all[i].0@] == config_group(c, i))
    &&& (forall|tok: Seq<char>| #[trigger] users.contains_key(tok) <==> table_has_token(all, tok))
    &&& (forall|i: int, k: int|
        token_pos(all, i, k) ==> users[#[trigger] token_at(all, i, k)] == all[i].0@)
}

/// A configuration error names a genuine offender: the table, user id or
/// token it carries really is absent, duplicated or malformed.
pub open spec fn config_error_names_offender(e: ConfigError, c: AuthConfig) -> bool {
    let all = config_tables(c);
    match e {
        ConfigError::MissingTable { name } => (name@ == "broadcaster_auth"@
            && c.broadcaster_auth is None) || (name@ == "reader_auth"@ && c.reader_auth is None),
        ConfigError::DuplicateUser { user_id, .. } => exists|i: int, j: int|
            0 <= i < j < all.len() && #[trigger] all[i].0@ == user_id@ && #[trigger] all[j].0@
                == user_id@,
        ConfigError::InvalidTokenArray { user_id, .. } => exists|i: int|
            0 <= i < all.len() && #[trigger] all[i].0@ == user_id@ && !(all[i].1 is List),
        ConfigError::InvalidToken { user_id, .. } => exists|i: int|
            0 <= i < all.len() && #[trigger] all[i].0@ == user_id@ && all[i].1 is List && (exists|
                k: int,
            |
                0 <= k < all[i].1->List_0@.len() && !(#[trigger] all[i].1->List_0@[k] is Text)),
        ConfigError::DuplicateToken { user_id, token, .. } => (exists|i: int, k: int|
            token_pos(all, i, k) && #[trigger] token_at(all, i, k) == token@ && all[i].0@
                == user_id@) && (exists|i: int, k: int, j: int, l: int|
            #![trigger token_at(all, i, k), token_at(all, j, l)]
            token_pos(all, i, k) && token_pos(all, j, l) && (i != j || k != l) && token_at(
                all,
                i,
                k,
            ) == token@ && token_at(all, j, l) == token@),
    }
}

impl BearerTokenAuthenticator {
    /// Register each token of `tokens` to `user_id`, rejecting non-string
    /// elements and tokens that are already registered to anyone.
    fn load_tokens(&mut self, user_id: &String, group: Group, tokens: &Vec<ConfigValue>) -> (r:
        Result<(), ConfigError>)
        ensures
            final(self).groups@ == old(self).groups@,
            (r is Ok <==> ({
                &&& forall|k: int| 0 <= k < tokens@.len() ==> #[trigger] tokens@[k] is Text
                &&& forall|k: int, l: int|
                    #![trigger item_text(tokens@, k), item_text(tokens@, l)]
                    0 <= k < l < tokens@.len() ==> item_text(tokens@, k) != item_text(tokens@, l)
                &&& forall|k: int|
                    0 <= k < tokens@.len() ==> !old(self).users_map().contains_key(
                        #[trigger] item_text(tokens@, k),
                    )
            })),
            r is Ok ==> ({
                &&& forall|tok: Seq<char>|
                    #[trigger] final(self).users_map().contains_key(tok) <==> (old(self).users_map().contains_key(tok) || (exists|k: int|
                        0 <= k < tokens@.len() && #[trigger] item_text(tokens@, k) == tok))
                &&& forall|tok: Seq<char>|
                    old(self).users_map().contains_key(tok) ==> #[trigger] final(self).users_map()[tok] == old(self).users_map()[tok]
                &&& forall|k: int|
                    0 <= k < tokens@.len() ==> final(self).users_map()[#[trigger] item_text(
                        tokens@,
                        k,
                    )] == user_id@
            }),
            r matches Err(e) ==> (match e {
                ConfigError::InvalidToken { name, user_id: u } => name@ == spec_config_name(group)
                    && u@ == user_id@ && (exists|k: int|
                    0 <= k < tokens@.len() && !(#[trigger] tokens@[k] is Text)),
                ConfigError::DuplicateToken { name, user_id: u, existing_user, token } => name@
                    == spec_config_name(group) && u@ == user_id@ && (exists|k: int|
                    0 <= k < tokens@.len() && #[trigger] tokens@[k] is Text && item_text(
                        tokens@,
                        k,
                    ) == token@) && (old(self).users_map().contains_key(token@) || (exists|
                    k: int,
                    l: int,
                |
                    #![trigger item_text(tokens@, k), item_text(tokens@, l)]
                    0 <= k < l < tokens@.len() && item_text(tokens@, k) == token@ && item_text(
                        tokens@,
                        l,
                    ) == token@)),
                _ => false,
            }),
    {
        let ghost users0 = self.users_map();
        let name = group.config_name();
        let n = tokens.len();
        let mut k: usize = 0;
        while k < n
            invariant
                n == tokens@.len(),
                k <= n,
                name@ == spec_config_name(group),
                self.groups@ == old(self).groups@,
                users0 == old(self).users_map(),
                forall|x: int| 0 <= x < k ==> #[trigger] tokens@[x] is Text,
                forall|x: int, y: int|
                    #![trigger item_text(tokens@, x), item_text(tokens@, y)]
                    0 <= x < y < k ==> item_text(tokens@, x) != item_text(tokens@, y),
                forall|x: int|
                    0 <= x < k ==> !users0.contains_key(#[trigger] item_text(tokens@, x)),
                forall|tok: Seq<char>|
                    #[trigger] self.users_map().contains_key(tok) <==> (users0.contains_key(tok)
                        || (exists|x: int|
                        0 <= x < k && #[trigger] item_text(tokens@, x) == tok)),
                forall|tok: Seq<char>|
                    users0.contains_key(tok) ==> #[trigger] self.users_map()[tok] == users0[tok],
                forall|x: int|
                    0 <= x < k ==> self.users_map()[#[trigger] item_text(tokens@, x)] == user_id@,
            decreases n - k,
        {
            let ghost m0 = self.users_map();
            let ghost prev = self.users@;
            let element = &tokens[k];
            let token = match element.as_str() {
                Some(t) => t,
                None => {
                    proof {
                        assert(!(tokens@[k as int] is Text));
                    }
                    return Err(
                        ConfigError::InvalidToken {
                            name: String::from_str(name),
                            user_id: user_id.clone(),
                        },
                    );
                },
            };
            if let Some(dupe) = assoc_find(&self.users, token.as_str()) {
                proof {
                    assert(self.users_map().contains_key(token@));
                    assert(tokens@[k as int] is Text);
                    assert(item_text(tokens@, k as int) == token@);
                    if !users0.contains_key(token@) {
                        let x = choose|x: int|
                            0 <= x < k && #[trigger] item_text(tokens@, x) == token@;
                        assert(0 <= x < k as int && item_text(tokens@, x) == token@ && item_text(
                            tokens@,
                            k as int,
                        ) == token@);
                    }
                }
                return Err(
                    ConfigError::DuplicateToken {
                        name: String::from_str(name),
                        user_id: user_id.clone(),
                        existing_user: dupe.clone(),
                        token: token.clone(),
                    },
                );
            }
            let pair = (token.clone(), user_id.clone());
            proof {
                lemma_assoc_lookup_push_all(prev, pair);
            }
            self.users.push(pair);
            proof {
                assert(self.users@ == prev.push(pair));
                assert(pair.0@ == token@ && pair.1@ == user_id@);
                assert(pair.0@ == item_text(tokens@, k as int));
                assert(!m0.contains_key(pair.0@));
                assert(!users0.contains_key(pair.0@));
                assert forall|tok: Seq<char>| #[trigger] self.users_map().contains_key(tok) <==> (
                m0.contains_key(tok) || tok == pair.0@) by {
                    assert(assoc_lookup(prev.push(pair), tok) == (if assoc_lookup(prev, tok)
                        is Some {
                        assoc_lookup(prev, tok)
                    } else if pair.0@ == tok {
                        Some(pair.1)
                    } else {
                        None
                    }));
                }
                assert forall|tok: Seq<char>| m0.contains_key(tok) implies #[trigger] self.users_map()[tok]
                    == m0[tok] by {
                    assert(assoc_lookup(prev.push(pair), tok) == assoc_lookup(prev, tok));
                }
                assert(self.users_map()[pair.0@] == pair.1@);
                assert forall|x: int| 0 <= x < k implies item_text(tokens@, x) != item_text(
                    tokens@,
                    k as int,
                ) by {
                    if item_text(tokens@, x) == item_text(tokens@, k as int) {
                        assert(m0.contains_key(item_text(tokens@, x)));
                    }
                }
                assert forall|tok: Seq<char>| #[trigger] self.users_map().contains_key(tok) <==> (
                users0.contains_key(tok) || (exists|x: int|
                    0 <= x < k + 1 && #[trigger] item_text(tokens@, x) == tok)) by {
                    if self.users_map().contains_key(tok) {
                        if m0.contains_key(tok) {
                            if !users0.contains_key(tok) {
                                let x = choose|x: int|
                                    0 <= x < k && #[trigger] item_text(tokens@, x) == tok;
                                assert(0 <= x < k + 1 && item_text(tokens@, x) == tok);
                            }
                        } else {
                            assert(tok == pair.0@);
                            assert(item_text(tokens@, k as int) == tok);
                        }
                    }
                    if users0.contains_key(tok) {
                        assert(m0.contains_key(tok));
                        assert(self.users_map().contains_key(tok));
                    }
                    if exists|x: int| 0 <= x < k + 1 && #[trigger] item_text(tokens@, x) == tok {
                        let x = choose|x: int|
                            0 <= x < k + 1 && #[trigger] item_text(tokens@, x) == tok;
                        if x < k {
                            assert(m0.contains_key(tok));
                        } else {
                            assert(tok == pair.0@);
                        }
                        assert(self.users_map().contains_key(tok));
                    }
                }
                assert forall|x: int| 0 <= x < k + 1 implies self.users_map()[#[trigger] item_text(
                    tokens@,
                    x,
                )] == user_id@ by {
                    if x < k {
                        assert(m0.contains_key(item_text(tokens@, x)));
                        assert(m0[item_text(tokens@, x)] == user_id@);
                    } else {
                        assert(item_text(tokens@, x) == pair.0@);
                    }
                }
            }
            k = k + 1;
        }
        Ok(())
    }
}

impl BearerTokenAuthenticator {
    /// Load one role's auth configuration: register every entry's user id to
    /// the role and its tokens to the user id, rejecting absent tables,
    /// malformed values, and user ids or tokens that are already registered.
    fn load_auth_from_config(&mut self, group: Group, config: &AuthConfig) -> (r: Result<
        (),
        ConfigError,
    >)
        ensures
            (r is Ok <==> (spec_table(*config, group) is Some && load_ok(
                old(self).users_map(),
                old(self).groups_map(),
                spec_table(*config, group)->Some_0@,
            ))),
            r is Ok ==> ({
                let t = spec_table(*config, group)->Some_0@;
                &&& (forall|u: Seq<char>|
                    #[trigger] final(self).groups_map().contains_key(u) <==> (old(self).groups_map().contains_key(u) || table_has_user(t, u)))
                &&& (forall|u: Seq<char>|
                    old(self).groups_map().contains_key(u) ==> #[trigger] final(self).groups_map()[u] == old(self).groups_map()[u])
                &&& (forall|x: int|
                    0 <= x < t.len() ==> final(self).groups_map()[#[trigger] t[x].0@] == group)
                &&& (forall|tok: Seq<char>|
                    #[trigger] final(self).users_map().contains_key(tok) <==> (old(self).users_map().contains_key(tok) || table_has_token(t, tok)))
                &&& (forall|tok: Seq<char>|
                    old(self).users_map().contains_key(tok) ==> #[trigger] final(self).users_map()[tok] == old(self).users_map()[tok])
                &&& (forall|x: int, kk: int|
                    token_pos(t, x, kk) ==> final(self).users_map()[#[trigger] token_at(
                        t,
                        x,
                        kk,
                    )] == t[x].0@)
            }),
            r matches Err(e) ==> (match e {
                ConfigError::MissingTable { name } => name@ == spec_config_name(group)
                    && spec_table(*config, group) is None,
                ConfigError::DuplicateUser { name, user_id, .. } => name@ == spec_config_name(
                    group,
                ) && spec_table(*config, group) is Some && ({
                    let t = spec_table(*config, group)->Some_0@;
                    table_has_user(t, user_id@) && (old(self).groups_map().contains_key(user_id@)
                        || (exists|x: int, y: int|
                        0 <= x < y < t.len() && #[trigger] t[x].0@ == user_id@ && #[trigger] t[y].0@
                            == user_id@))
                }),
                ConfigError::InvalidTokenArray { name, user_id } => name@ == spec_config_name(
                    group,
                ) && spec_table(*config, group) is Some && ({
                    let t = spec_table(*config, group)->Some_0@;
                    exists|x: int|
                        0 <= x < t.len() && #[trigger] t[x].0@ == user_id@ && !(t[x].1 is List)
                }),
                ConfigError::InvalidToken { name, user_id } => name@ == spec_config_name(group)
                    && spec_table(*config, group) is Some && ({
                    let t = spec_table(*config, group)->Some_0@;
                    exists|x: int|
                        0 <= x < t.len() && #[trigger] t[x].0@ == user_id@ && t[x].1 is List && (
                        exists|kk: int|
                            0 <= kk < t[x].1->List_0@.len() && !(#[trigger] t[x].1->List_0@[kk]
                                is Text))
                }),
                ConfigError::DuplicateToken { name, user_id, token, .. } => name@
                    == spec_config_name(group) && spec_table(*config, group) is Some && ({
                    let t = spec_table(*config, group)->Some_0@;
                    (exists|x: int, kk: int|
                        token_pos(t, x, kk) && #[trigger] token_at(t, x, kk) == token@ && t[x].0@
                            == user_id@) && (old(self).users_map().contains_key(token@) || (exists|
                        x: int,
                        kk: int,
                        y: int,
                        ll: int,
                    |
                        #![trigger token_at(t, x, kk), token_at(t, y, ll)]
                        token_pos(t, x, kk) && token_pos(t, y, ll) && (x != y || kk != ll)
                            && token_at(t, x, kk) == token@ && token_at(t, y, ll) == token@))
                }),
            }),
    {
        let ghost users0 = self.users_map();
        let ghost groups0 = self.groups_map();
        let name = group.config_name();
        proof {
            reveal_strlit("broadcaster_auth");
            reveal_strlit("reader_auth");
            assert("broadcaster_auth"@.len() == 16 && "reader_auth"@.len() == 11);
            assert(spec_get_table(*config, name@) == spec_table(*config, group));
        }
        let table = match config.get_table(name) {
            Some(t) => t,
            None => {
                return Err(ConfigError::MissingTable { name: String::from_str(name) });
            },
        };
        let n = table.len();
        let mut i: usize = 0;
        while i < n
            invariant
                n == table@.len(),
                spec_table(*config, group) is Some && spec_table(*config, group)->Some_0@
                    == table@,
                i <= n,
                name@ == spec_config_name(group),
                users0 == old(self).users_map(),
                groups0 == old(self).groups_map(),
                forall|x: int| 0 <= x < i ==> entry_is_token_list(#[trigger] table@[x].1),
                forall|x: int, y: int|
                    0 <= x < y < i ==> #[trigger] table@[x].0@ != #[trigger] table@[y].0@,
                forall|x: int| 0 <= x < i ==> !groups0.contains_key(#[trigger] table@[x].0@),
                forall|x: int, kk: int, y: int, ll: int|
                    #![trigger token_at(table@, x, kk), token_at(table@, y, ll)]
                    token_pos(table@, x, kk) && token_pos(table@, y, ll) && x < i && y < i && (x
                        != y || kk != ll) ==> token_at(table@, x, kk) != token_at(table@, y, ll),
                forall|x: int, kk: int|
                    token_pos(table@, x, kk) && x < i ==> !users0.contains_key(
                        #[trigger] token_at(table@, x, kk),
                    ),
                forall|u: Seq<char>|
                    #[trigger] self.groups_map().contains_key(u) <==> (groups0.contains_key(u) || (
                    exists|x: int| 0 <= x < i && #[trigger] table@[x].0@ == u)),
                forall|u: Seq<char>|
                    groups0.contains_key(u) ==> #[trigger] self.groups_map()[u] == groups0[u],
                forall|x: int| 0 <= x < i ==> self.groups_map()[#[trigger] table@[x].0@] == group,
                forall|tok: Seq<char>|
                    #[trigger] self.users_map().contains_key(tok) <==> (users0.contains_key(tok)
                        || (exists|x: int, kk: int|
                        token_pos(table@, x, kk) && x < i && #[trigger] token_at(table@, x, kk)
                            == tok)),
                forall|tok: Seq<char>|
                    users0.contains_key(tok) ==> #[trigger] self.users_map()[tok] == users0[tok],
                forall|x: int, kk: int|
                    token_pos(table@, x, kk) && x < i ==> self.users_map()[#[trigger] token_at(
                        table@,
                        x,
                        kk,
                    )] == table@[x].0@,
            decreases n - i,
        {
            let ghost g0 = self.groups_map();
            let ghost u0 = self.users_map();
            let entry = &table[i];
            let user_id = &entry.0;
            if let Some(dupe) = assoc_find(&self.groups, user_id.as_str()) {
                proof {
                    assert(g0.contains_key(user_id@));
                    assert(table@[i as int].0@ == user_id@);
                    assert(table_has_user(table@, user_id@));
                    if !groups0.contains_key(user_id@) {
                        let x = choose|x: int| 0 <= x < i && #[trigger] table@[x].0@ == user_id@;
                        assert(0 <= x < i as int && table@[x].0@ == user_id@ && table@[i as int].0@
                            == user_id@);
                    }
                }
                return Err(
                    ConfigError::DuplicateUser {
                        name: String::from_str(name),
                        user_id: user_id.clone(),
                        existing_name: String::from_str(dupe.config_name()),
                    },
                );
            }
            let gpair = (user_id.clone(), group);
            let ghost gprev = self.groups@;
            proof {
                lemma_assoc_lookup_push_all(gprev, gpair);
            }
            self.groups.push(gpair);
            proof {
                assert(self.groups@ == gprev.push(gpair));
                assert(gpair.0@ == user_id@ && gpair.1 == group);
                assert(!g0.contains_key(user_id@));
                assert forall|u: Seq<char>| #[trigger] self.groups_map().contains_key(u) <==> (
                g0.contains_key(u) || u == user_id@) by {
                    assert(assoc_lookup(gprev.push(gpair), u) == (if assoc_lookup(gprev, u)
                        is Some {
                        assoc_lookup(gprev, u)
                    } else if gpair.0@ == u {
                        Some(gpair.1)
                    } else {
                        None
                    }));
                }
                assert forall|u: Seq<char>| g0.contains_key(u) implies #[trigger] self.groups_map()[u]
                    == g0[u] by {
                    assert(assoc_lookup(gprev.push(gpair), u) == assoc_lookup(gprev, u));
                }
                assert(self.groups_map()[user_id@] == group);
            }
            let tokens = match entry.1.as_array() {
                Some(items) => items,
                None => {
                    proof {
                        assert(!(table@[i as int].1 is List));
                        assert(table@[i as int].0@ == user_id@);
                    }
                    return Err(
                        ConfigError::InvalidTokenArray {
                            name: String::from_str(name),
                            user_id: user_id.clone(),
                        },
                    );
                },
            };
            let ghost u_before = self.users_map();
            let ghost g_after = self.groups_map();
            let res = self.load_tokens(user_id, group, tokens);
            proof {
                assert(u_before == u0);
                assert(table@[i as int].1->List_0@ == tokens@);
                assert(entry_tokens(table@[i as int].1) == tokens@.map_values(
                    |item: ConfigValue| item->Text_0@,
                ));
                assert(forall|kk: int|
                    0 <= kk < tokens@.len() ==> #[trigger] entry_tokens(table@[i as int].1)[kk]
                        == item_text(tokens@, kk));
                assert(entry_tokens(table@[i as int].1).len() == tokens@.len());
            }
            match res {
                Ok(()) => {},
                Err(e) => {
                    proof {
                        match e {
                            ConfigError::InvalidToken { .. } => {
                                assert(table@[i as int].0@ == user_id@);
                                assert(table@[i as int].1 is List);
                            },
                            ConfigError::DuplicateToken { ref token, .. } => {
                                let kk = choose|kk: int|
                                    0 <= kk < tokens@.len() && #[trigger] tokens@[kk] is Text
                                        && item_text(tokens@, kk) == token@;
                                assert(token_pos(table@, i as int, kk) && token_at(
                                    table@,
                                    i as int,
                                    kk,
                                ) == token@ && table@[i as int].0@ == user_id@);
                                if u0.contains_key(token@) {
                                    if users0.contains_key(token@) {
                                    } else {
                                        let (x, ll): (int, int) = choose|x: int, ll: int|
                                            token_pos(table@, x, ll) && x < i
                                                && #[trigger] token_at(table@, x, ll) == token@;
                                        assert(token_pos(table@, x, ll) && token_pos(
                                            table@,
                                            i as int,
                                            kk,
                                        ) && (x != i as int || ll != kk) && token_at(table@, x, ll)
                                            == token@ && token_at(table@, i as int, kk) == token@);
                                    }
                                } else {
                                    let (kx, lx): (int, int) = choose|kx: int, lx: int|
                                        #![trigger item_text(tokens@, kx), item_text(tokens@, lx)]
                                        0 <= kx < lx < tokens@.len() && item_text(tokens@, kx)
                                            == token@ && item_text(tokens@, lx) == token@;
                                    assert(token_pos(table@, i as int, kx) && token_pos(
                                        table@,
                                        i as int,
                                        lx,
                                    ) && kx != lx && token_at(table@, i as int, kx) == token@
                                        && token_at(table@, i as int, lx) == token@);
                                }
                            },
                            _ => {
                                assert(false);
                            },
                        }
                    }
                    return Err(e);
                },
            }
            proof {
                // The entry is a well-formed token list, fresh on every count:
                // extend the prefix facts and the map characterizations to it.
                assert(entry_is_token_list(table@[i as int].1));
                assert forall|kk: int| 0 <= kk < tokens@.len() implies !u0.contains_key(
                    #[trigger] item_text(tokens@, kk),
                ) by {}
                assert forall|x: int, kk: int, y: int, ll: int|
                    #![trigger token_at(table@, x, kk), token_at(table@, y, ll)]
                    token_pos(table@, x, kk) && token_pos(table@, y, ll) && x < i + 1 && y < i + 1
                        && (x != y || kk != ll) implies token_at(table@, x, kk) != token_at(
                    table@,
                    y,
                    ll,
                ) by {
                    if x == i as int && y == i as int {
                        assert(token_at(table@, x, kk) == item_text(tokens@, kk));
                        assert(token_at(table@, y, ll) == item_text(tokens@, ll));
                    } else if x == i as int && y < i as int {
                        if token_at(table@, x, kk) == token_at(table@, y, ll) {
                            assert(u0.contains_key(token_at(table@, y, ll)));
                            assert(u0.contains_key(item_text(tokens@, kk)));
                        }
                    } else if y == i as int && x < i as int {
                        if token_at(table@, x, kk) == token_at(table@, y, ll) {
                            assert(u0.contains_key(token_at(table@, x, kk)));
                            assert(u0.contains_key(item_text(tokens@, ll)));
                        }
                    }
                }
                assert forall|x: int, kk: int|
                    token_pos(table@, x, kk) && x < i + 1 implies !users0.contains_key(
                    #[trigger] token_at(table@, x, kk),
                ) by {
                    if x == i as int {
                        assert(token_at(table@, x, kk) == item_text(tokens@, kk));
                    }
                }
                assert forall|tok: Seq<char>| #[trigger] self.users_map().contains_key(tok) <==> (
                users0.contains_key(tok) || (exists|x: int, kk: int|
                    token_pos(table@, x, kk) && x < i + 1 && #[trigger] token_at(table@, x, kk)
                        == tok)) by {
                    if self.users_map().contains_key(tok) {
                        if u0.contains_key(tok) {
                            if !users0.contains_key(tok) {
                                let (x, kk): (int, int) = choose|x: int, kk: int|
                                    token_pos(table@, x, kk) && x < i && #[trigger] token_at(
                                        table@,
                                        x,
                                        kk,
                                    ) == tok;
                                assert(token_pos(table@, x, kk) && x < i + 1 && token_at(
                                    table@,
                                    x,
                                    kk,
                                ) == tok);
                            }
                        } else {
                            let kk = choose|kk: int|
                                0 <= kk < tokens@.len() && #[trigger] item_text(tokens@, kk)
                                    == tok;
                            assert(token_pos(table@, i as int, kk) && token_at(table@, i as int, kk)
                                == tok);
                        }
                    }
                    if users0.contains_key(tok) {
                        assert(u0.contains_key(tok));
                        assert(self.users_map().contains_key(tok));
                    }
                    if exists|x: int, kk: int|
                        token_pos(table@, x, kk) && x < i + 1 && #[trigger] token_at(table@, x, kk)
                            == tok {
                        let (x, kk): (int, int) = choose|x: int, kk: int|
                            token_pos(table@, x, kk) && x < i + 1 && #[trigger] token_at(
                                table@,
                                x,
                                kk,
                            ) == tok;
                        if x < i as int {
                            assert(u0.contains_key(tok));
                            assert(self.users_map().contains_key(tok));
                        } else {
                            assert(token_at(table@, x, kk) == item_text(tokens@, kk));
                            assert(self.users_map().contains_key(tok));
                        }
                    }
                }
                assert forall|x: int, kk: int|
                    token_pos(table@, x, kk) && x < i + 1 implies self.users_map()[#[trigger] token_at(
                    table@,
                    x,
                    kk,
                )] == table@[x].0@ by {
                    if x < i as int {
                        assert(u0.contains_key(token_at(table@, x, kk)));
                        assert(u0[token_at(table@, x, kk)] == table@[x].0@);
                    } else {
                        assert(token_at(table@, x, kk) == item_text(tokens@, kk));
                        assert(self.users_map()[item_text(tokens@, kk)] == user_id@);
                    }
                }
                assert forall|u: Seq<char>| #[trigger] self.groups_map().contains_key(u) <==> (
                groups0.contains_key(u) || (exists|x: int|
                    0 <= x < i + 1 && #[trigger] table@[x].0@ == u)) by {
                    if self.groups_map().contains_key(u) {
                        if g0.contains_key(u) && !groups0.contains_key(u) {
                            let x = choose|x: int| 0 <= x < i && #[trigger] table@[x].0@ == u;
                            assert(0 <= x < i + 1 && table@[x].0@ == u);
                        }
                        if !g0.contains_key(u) {
                            assert(u == user_id@);
                            assert(table@[i as int].0@ == u);
                        }
                    }
                    if groups0.contains_key(u) {
                        assert(g0.contains_key(u));
                        assert(self.groups_map().contains_key(u));
                    }
                    if exists|x: int| 0 <= x < i + 1 && #[trigger] table@[x].0@ == u {
                        let x = choose|x: int| 0 <= x < i + 1 && #[trigger] table@[x].0@ == u;
                        if x < i as int {
                            assert(g0.contains_key(u));
                        } else {
                            assert(u == user_id@);
                        }
                        assert(self.groups_map().contains_key(u));
                    }
                }
            }
            i = i + 1;
        }
        proof {
            assert(load_ok(users0, groups0, table@));
        }
        Ok(())
    }
}

impl BearerTokenAuthenticator {
    /// Build the registry from configuration: load the broadcaster table,
    /// then the reader table. Construction is all-or-nothing: it succeeds
    /// exactly when the configuration is consistent (`config_ok`), and the
    /// registry then resolves exactly the configured tokens and user ids
    /// (`registry_of_config`); any failure names a genuine offender.
    pub fn from_config(config: &AuthConfig) -> (r: Result<BearerTokenAuthenticator, ConfigError>)
        ensures
            r is Ok <==> config_ok(*config),
            r matches Ok(a) ==> a.wf() && registry_of_config(
                a.users_map(),
                a.groups_map(),
                *config,
            ),
            config.broadcaster_auth is None ==> (r matches Err(e) && e matches ConfigError::MissingTable { name }
                && name@ == "broadcaster_auth"@),
            r matches Err(e) ==> config_error_names_offender(e, *config),
    {
        let mut authenticator = BearerTokenAuthenticator { users: Vec::new(), groups: Vec::new() };
        proof {
            assert(forall|k: Seq<char>|
                !(#[trigger] authenticator.users_map().contains_key(k)));
            assert(forall|k: Seq<char>|
                !(#[trigger] authenticator.groups_map().contains_key(k)));
        }
        let ghost all = config_tables(*config);
        let ghost b = config.broadcaster_auth->Some_0@;
        let ghost rr = config.reader_auth->Some_0@;
        match authenticator.load_auth_from_config(Group::Broadcaster, config) {
            Ok(()) => {},
            Err(e) => {
                proof {
                    assert(forall|x: int| 0 <= x < b.len() ==> all[x] == #[trigger] b[x]);
                    match e {
                        ConfigError::MissingTable { .. } => {},
                        ConfigError::DuplicateUser { ref user_id, .. } => {
                            let (x, y): (int, int) = choose|x: int, y: int|
                                0 <= x < y < b.len() && #[trigger] b[x].0@ == user_id@
                                    && #[trigger] b[y].0@ == user_id@;
                            assert(0 <= x < y < all.len() && all[x].0@ == user_id@ && all[y].0@
                                == user_id@);
                            assert(!users_distinct(all));
                        },
                        ConfigError::InvalidTokenArray { ref user_id, .. } => {
                            let x = choose|x: int|
                                0 <= x < b.len() && #[trigger] b[x].0@ == user_id@ && !(b[x].1
                                    is List);
                            assert(0 <= x < all.len() && all[x].0@ == user_id@ && !(all[x].1
                                is List));
                            assert(!entry_is_token_list(all[x].1));
                            assert(!tables_wf(all));
                        },
                        ConfigError::InvalidToken { ref user_id, .. } => {
                            let x = choose|x: int|
                                0 <= x < b.len() && #[trigger] b[x].0@ == user_id@ && b[x].1
                                    is List && (exists|kk: int|
                                    0 <= kk < b[x].1->List_0@.len() && !(#[trigger] b[x].1->List_0@[kk]
                                        is Text));
                            assert(0 <= x < all.len() && all[x].0@ == user_id@ && all[x].1
                                is List);
                            assert(!entry_is_token_list(all[x].1));
                            assert(!tables_wf(all));
                        },
                        ConfigError::DuplicateToken { ref token, .. } => {
                            let (x, kk, y, ll): (int, int, int, int) = choose|
                                x: int,
                                kk: int,
                                y: int,
                                ll: int,
                            |
                                #![trigger token_at(b, x, kk), token_at(b, y, ll)]
                                token_pos(b, x, kk) && token_pos(b, y, ll) && (x != y || kk != ll)
                                    && token_at(b, x, kk) == token@ && token_at(b, y, ll)
                                    == token@;
                            assert(token_pos(all, x, kk) && token_pos(all, y, ll) && token_at(
                                all,
                                x,
                                kk,
                            ) == token@ && token_at(all, y, ll) == token@);
                            assert(!tokens_distinct(all));
                            let (x2, kk2): (int, int) = choose|x2: int, kk2: int|
                                token_pos(b, x2, kk2) && #[trigger] token_at(b, x2, kk2) == token@
                                    && b[x2].0@ == e->DuplicateToken_user_id@;
                            assert(token_pos(all, x2, kk2) && token_at(all, x2, kk2) == token@
                                && all[x2].0@ == e->DuplicateToken_user_id@);
                        },
                    }
                }
                return Err(e);
            },
        }
        let ghost u1 = authenticator.users_map();
        let ghost g1 = authenticator.groups_map();
        match authenticator.load_auth_from_config(Group::Reader, config) {
            Ok(()) => {},
            Err(e) => {
                proof {
                    assert(forall|x: int| 0 <= x < b.len() ==> all[x] == #[trigger] b[x]);
                    assert(forall|x: int| 0 <= x < rr.len() ==> all[b.len() + x] == #[trigger] rr[x]);
                    match e {
                        ConfigError::MissingTable { .. } => {},
                        ConfigError::DuplicateUser { ref user_id, .. } => {
                            if g1.contains_key(user_id@) {
                                let x = choose|x: int|
                                    0 <= x < b.len() && #[trigger] b[x].0@ == user_id@;
                                let y = choose|y: int|
                                    0 <= y < rr.len() && #[trigger] rr[y].0@ == user_id@;
                                assert(0 <= x < b.len() + y < all.len() && all[x].0@ == user_id@
                                    && all[b.len() + y].0@ == user_id@);
                                assert(!users_distinct(all));
                            } else {
                                let (x, y): (int, int) = choose|x: int, y: int|
                                    0 <= x < y < rr.len() && #[trigger] rr[x].0@ == user_id@
                                        && #[trigger] rr[y].0@ == user_id@;
                                assert(all[b.len() + x].0@ == user_id@ && all[b.len() + y].0@
                                    == user_id@);
                                assert(!users_distinct(all));
                            }
                        },
                        ConfigError::InvalidTokenArray { ref user_id, .. } => {
                            let x = choose|x: int|
                                0 <= x < rr.len() && #[trigger] rr[x].0@ == user_id@ && !(rr[x].1
                                    is List);
                            assert(all[b.len() + x].0@ == user_id@ && !(all[b.len() + x].1
                                is List));
                            assert(!entry_is_token_list(all[b.len() + x].1));
                            assert(!tables_wf(all));
                        },
                        ConfigError::InvalidToken { ref user_id, .. } => {
                            let x = choose|x: int|
                                0 <= x < rr.len() && #[trigger] rr[x].0@ == user_id@ && rr[x].1
                                    is List && (exists|kk: int|
                                    0 <= kk < rr[x].1->List_0@.len() && !(#[trigger] rr[x].1->List_0@[kk]
                                        is Text));
                            assert(all[b.len() + x].0@ == user_id@ && all[b.len() + x].1 is List);
                            assert(!entry_is_token_list(all[b.len() + x].1));
                            assert(!tables_wf(all));
                        },
                        ConfigError::DuplicateToken { ref token, .. } => {
                            let (x2, kk2): (int, int) = choose|x2: int, kk2: int|
                                token_pos(rr, x2, kk2) && #[trigger] token_at(rr, x2, kk2)
                                    == token@ && rr[x2].0@ == e->DuplicateToken_user_id@;
                            assert(token_pos(all, b.len() + x2, kk2) && token_at(
                                all,
                                b.len() + x2,
                                kk2,
                            ) == token@ && all[b.len() + x2].0@ == e->DuplicateToken_user_id@);
                            if u1.contains_key(token@) {
                                let (x, kk): (int, int) = choose|x: int, kk: int|
                                    token_pos(b, x, kk) && #[trigger] token_at(b, x, kk)
                                        == token@;
                                assert(token_pos(all, x, kk) && token_at(all, x, kk) == token@);
                                assert(x < b.len() + x2);
                                assert(!tokens_distinct(all));
                            } else {
                                let (x, kk, y, ll): (int, int, int, int) = choose|
                                    x: int,
                                    kk: int,
                                    y: int,
                                    ll: int,
                                |
                                    #![trigger token_at(rr, x, kk), token_at(rr, y, ll)]
                                    token_pos(rr, x, kk) && token_pos(rr, y, ll) && (x != y || kk
                                        != ll) && token_at(rr, x, kk) == token@ && token_at(
                                        rr,
                                        y,
                                        ll,
                                    ) == token@;
                                assert(token_pos(all, b.len() + x, kk) && token_pos(
                                    all,
                                    b.len() + y,
                                    ll,
                                ) && token_at(all, b.len() + x, kk) == token@ && token_at(
                                    all,
                                    b.len() + y,
                                    ll,
                                ) == token@);
                                assert(!tokens_distinct(all));
                            }
                        },
                    }
                }
                return Err(e);
            },
        }
        proof {
            let u2 = authenticator.users_map();
            let g2 = authenticator.groups_map();
            assert(forall|x: int| 0 <= x < b.len() ==> all[x] == #[trigger] b[x]);
            assert(forall|x: int| 0 <= x < rr.len() ==> all[b.len() + x] == #[trigger] rr[x]);
            lemma_tables_concat_membership(b, rr);
            assert forall|u: Seq<char>| !(table_has_user(b, u) && table_has_user(rr, u)) by {
                if table_has_user(b, u) && table_has_user(rr, u) {
                    let y = choose|y: int| 0 <= y < rr.len() && #[trigger] rr[y].0@ == u;
                    assert(g1.contains_key(rr[y].0@));
                }
            }
            assert forall|tok: Seq<char>| !(table_has_token(b, tok) && table_has_token(rr, tok)) by {
                if table_has_token(b, tok) && table_has_token(rr, tok) {
                    let (y, ll): (int, int) = choose|y: int, ll: int|
                        token_pos(rr, y, ll) && #[trigger] token_at(rr, y, ll) == tok;
                    assert(u1.contains_key(token_at(rr, y, ll)));
                }
            }
            lemma_tables_concat_wf(b, rr);
            assert(config_ok(*config));
            assert forall|x: int| 0 <= x < all.len() implies g2[#[trigger] all[x].0@]
                == config_group(*config, x) by {
                if x < b.len() {
                    assert(all[x].0@ == b[x].0@);
                    assert(g1.contains_key(b[x].0@)) by {
                        assert(table_has_user(b, b[x].0@));
                    }
                    assert(g1[b[x].0@] == Group::Broadcaster);
                } else {
                    assert(all[x] == rr[x - b.len()]);
                    assert(g2[rr[x - b.len()].0@] == Group::Reader);
                }
            }
            assert forall|x: int, kk: int| token_pos(all, x, kk) implies u2[#[trigger] token_at(
                all,
                x,
                kk,
            )] == all[x].0@ by {
                if x < b.len() {
                    assert(all[x] == b[x]);
                    assert(token_pos(b, x, kk) && token_at(b, x, kk) == token_at(all, x, kk));
                    assert(u1.contains_key(token_at(b, x, kk))) by {
                        assert(table_has_token(b, token_at(b, x, kk)));
                    }
                    assert(u1[token_at(b, x, kk)] == b[x].0@);
                } else {
                    assert(all[x] == rr[x - b.len()]);
                    assert(token_pos(rr, x - b.len(), kk) && token_at(rr, x - b.len(), kk)
                        == token_at(all, x, kk));
                    assert(u2[token_at(rr, x - b.len(), kk)] == rr[x - b.len()].0@);
                }
            }
            assert(registry_of_config(u2, g2, *config));
            assert forall|tok: Seq<char>| #[trigger] u2.contains_key(tok) implies g2.contains_key(
                u2[tok],
            ) by {
                assert(table_has_token(all, tok));
                let (x, kk): (int, int) = choose|x: int, kk: int|
                    token_pos(all, x, kk) && token_at(all, x, kk) == tok;
                assert(u2[tok] == all[x].0@);
                assert(table_has_user(all, all[x].0@));
            }
            assert(authenticator.wf());
        }
        Ok(authenticator)
    }
}

/// The token of a well-formed `Authorization` header value: the part after
/// the first space, provided the part before it is `Bearer` up to ASCII case.
pub open spec fn parse_bearer_token(v: Seq<char>) -> Option<Seq<char>> {
    if has_space(v) && seq_eq_ci(v.take(first_space(v)), "bearer"@) {
        Some(v.skip(first_space(v) + 1))
    } else {
        None
    }
}

/// What authentication returns for a registry and a request's headers: the
/// `Authorization` header is read, split on its first space into a scheme
/// (which must be `Bearer`, case-insensitively) and a token, and the token is
/// resolved through the registry to a (user id, role) pair.
pub open spec fn spec_authenticated_user(
    users: Map<Seq<char>, Seq<char>>,
    groups: Map<Seq<char>, Group>,
    h: Seq<(Seq<char>, Seq<char>)>,
) -> Result<(Seq<char>, Group), HandlerErrorKind> {
    match spec_get_one(h, "Authorization"@) {
        None => Err(HandlerErrorKind::MissingAuth),
        Some(v) => match parse_bearer_token(v) {
            None => Err(HandlerErrorKind::InvalidAuth),
            Some(tok) => if !users.contains_key(tok) {
                Err(HandlerErrorKind::InvalidAuth)
            } else if !groups.contains_key(users[tok]) {
                Err(HandlerErrorKind::InternalError)
            } else {
                Ok((users[tok], groups[users[tok]]))
            },
        },
    }
}

impl BearerTokenAuthenticator {
    /// Determine if a request's headers are for an authenticated user.
    pub fn authenticated_user(&self, headers: &Headers) -> (r: Result<
        (String, Group),
        HandlerErrorKind,
    >)
        requires
            self.wf(),
        ensures
            ({
                let s = spec_authenticated_user(self.users_map(), self.groups_map(), headers@);
                match r {
                    Ok(p) => s == Ok::<(Seq<char>, Group), HandlerErrorKind>((p.0@, p.1)),
                    Err(e) => s == Err::<(Seq<char>, Group), HandlerErrorKind>(e),
                }
            }),
            !(r matches Err(HandlerErrorKind::InternalError)),
    {
        let auth_header = match headers.get_one("Authorization") {
            Some(h) => h,
            None => {
                return Err(HandlerErrorKind::MissingAuth);
            },
        };
        let value = auth_header.as_str();
        let i = match crate::text::find_first_space(value) {
            Some(i) => i,
            None => {
                return Err(HandlerErrorKind::InvalidAuth);
            },
        };
        let len = value.unicode_len();
        let scheme = value.substring_char(0, i);
        proof {
            assert(scheme@ =~= value@.take(i as int));
        }
        if !str_eq_ci(scheme, "bearer") {
            return Err(HandlerErrorKind::InvalidAuth);
        }
        let token = value.substring_char(i + 1, len);
        proof {
            assert(token@ =~= value@.skip(i as int + 1));
        }
        let user_id = match assoc_find(&self.users, token) {
            Some(u) => u,
            None => {
                return Err(HandlerErrorKind::InvalidAuth);
            },
        };
        // Authenticated
        let group = match assoc_find(&self.groups, user_id.as_str()) {
            Some(g) => *g,
            None => {
                proof {
                    // The registry invariant rules this out: the token is
                    // registered, so its user id has a role.
                    assert(self.users_map().contains_key(token@));
                    assert(false);
                }
                return Err(HandlerErrorKind::InternalError);
            },
        };
        Ok((user_id.clone(), group))
    }
}

/// Authorize the authenticated identity to act on namespace
/// `for_broadcast_id`: it must be a broadcaster, and that namespace must be
/// its own user id (exact string equality).
pub fn authorized_broadcaster(
    auth: &BearerTokenAuthenticator,
    headers: &Headers,
    for_broadcast_id: &str,
) -> (r: Result<Broadcaster, HandlerErrorKind>)
    requires
        auth.wf(),
    ensures
        ({
            let s = spec_authenticated_user(auth.users_map(), auth.groups_map(), headers@);
            match r {
                Ok(b) => s == Ok::<(Seq<char>, Group), HandlerErrorKind>(
                    (for_broadcast_id@, Group::Broadcaster),
                ) && b.id@ == for_broadcast_id@,
                Err(HandlerErrorKind::Unauthorized) => s matches Ok(p) && !(p.1
                    == Group::Broadcaster && p.0 == for_broadcast_id@),
                Err(e) => s == Err::<(Seq<char>, Group), HandlerErrorKind>(e),
            }
        }),
{
    let (id, group) = match auth.authenticated_user(headers) {
        Ok(p) => p,
        Err(e) => {
            return Err(e);
        },
    };
    if group == Group::Broadcaster && str_eq(id.as_str(), for_broadcast_id) {
        // Authorized
        Ok(Broadcaster::new(id))
    } else {
        Err(HandlerErrorKind::Unauthorized)
    }
}

/// Authorize the authenticated identity for reading: it must be a reader; a
/// reader may read every namespace.
pub fn authorized_reader(auth: &BearerTokenAuthenticator, headers: &Headers) -> (r: Result<
    Reader,
    HandlerErrorKind,
>)
    requires
        auth.wf(),
    ensures
        ({
            let s = spec_authenticated_user(auth.users_map(), auth.groups_map(), headers@);
            match r {
                Ok(rd) => s matches Ok(p) && p.1 == Group::Reader && rd.id@ == p.0,
                Err(HandlerErrorKind::Unauthorized) => s matches Ok(p) && p.1 != Group::Reader,
                Err(e) => s == Err::<(Seq<char>, Group), HandlerErrorKind>(e),
            }
        }),
{
    let (id, group) = match auth.authenticated_user(headers) {
        Ok(p) => p,
        Err(e) => {
            return Err(e);
        },
    };
    if group == Group::Reader {
        // Authorized
        Ok(Reader::new(id))
    } else {
        Err(HandlerErrorKind::Unauthorized)
    }
}

} // verus!
