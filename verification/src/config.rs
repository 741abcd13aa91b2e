//! Configuration model: two named tables, each mapping a user id to an array
//! of bearer tokens. A value is kept as found in the configuration file, so
//! that a malformed entry (not an array, or an array holding a non-string)
//! can be detected and rejected at registry construction.

use vstd::prelude::*;

verus! {

/// A configuration value: a string, an array of values, or anything else.
pub enum ConfigValue {
    Text(String),
    List(Vec<ConfigValue>),
    Other,
}

impl ConfigValue {
    /// The value as an array, if it is one.
    pub fn as_array(&self) -> (r: Option<&Vec<ConfigValue>>)
        ensures
            match r {
                Some(items) => *self matches ConfigValue::List(v) && v@ == items@,
                None => !(*self is List),
            },
    {
        match self {
            ConfigValue::List(items) => Some(items),
            _ => None,
        }
    }

    /// The value as a string, if it is one.
    pub fn as_str(&self) -> (r: Option<&String>)
        ensures
            match r {
                Some(s) => *self matches ConfigValue::Text(t) && t@ == s@,
                None => !(*self is Text),
            },
    {
        match self {
            ConfigValue::Text(s) => Some(s),
            _ => None,
        }
    }
}

/// The configuration: the `broadcaster_auth` and `reader_auth` tables, each a
/// sequence of (user id, value) entries; `None` stands for an absent or
/// non-table entry in the configuration file.
pub struct AuthConfig {
    pub broadcaster_auth: Option<Vec<(String, ConfigValue)>>,
    pub reader_auth: Option<Vec<(String, ConfigValue)>>,
}

/// The table registered under `name`, as the configuration exposes it.
pub open spec fn spec_get_table(c: AuthConfig, name: Seq<char>) -> Option<Vec<(String, ConfigValue)>> {
    if name == "broadcaster_auth"@ {
        c.broadcaster_auth
    } else if name == "reader_auth"@ {
        c.reader_auth
    } else {
        None
    }
}

impl AuthConfig {
    /// Look a table up by its configuration name.
    pub fn get_table(&self, name: &str) -> (r: Option<&Vec<(String, ConfigValue)>>)
        ensures
            match r {
                Some(t) => spec_get_table(*self, name@) matches Some(v) && v@ == t@,
                None => spec_get_table(*self, name@) is None,
            },
    {
        if crate::text::str_eq(name, "broadcaster_auth") {
            match &self.broadcaster_auth {
                Some(t) => Some(t),
                None => None,
            }
        } else if crate::text::str_eq(name, "reader_auth") {
            match &self.reader_auth {
                Some(t) => Some(t),
                None => None,
            }
        } else {
            None
        }
    }
}

/// The entry's value is an array whose elements are all strings.
pub open spec fn entry_is_token_list(v: ConfigValue) -> bool {
    &&& v is List
    &&& forall|k: int| 0 <= k < v->List_0@.len() ==> #[trigger] v->List_0@[k] is Text
}

/// The tokens of an entry's value (meaningful when `entry_is_token_list`).
pub open spec fn entry_tokens(v: ConfigValue) -> Seq<Seq<char>> {
    v->List_0@.map_values(|item: ConfigValue| item->Text_0@)
}

/// Some entry of `t` registers user id `u`.
pub open spec fn table_has_user(t: Seq<(String, ConfigValue)>, u: Seq<char>) -> bool {
    exists|i: int| 0 <= i < t.len() && #[trigger] t[i].0@ == u
}

/// `(i, k)` is a valid token position of `t`: entry `i`, token `k`.
pub open spec fn token_pos(t: Seq<(String, ConfigValue)>, i: int, k: int) -> bool {
    0 <= i < t.len() && 0 <= k < entry_tokens(t[i].1).len()
}

/// The token at position `(i, k)` of `t`.
pub open spec fn token_at(t: Seq<(String, ConfigValue)>, i: int, k: int) -> Seq<char> {
    entry_tokens(t[i].1)[k]
}

/// Some entry of `t` holds token `tok`.
pub open spec fn table_has_token(t: Seq<(String, ConfigValue)>, tok: Seq<char>) -> bool {
    exists|i: int, k: int| token_pos(t, i, k) && token_at(t, i, k) == tok
}

/// Every entry's value is an array of strings.
pub open spec fn tables_wf(t: Seq<(String, ConfigValue)>) -> bool {
    forall|i: int| 0 <= i < t.len() ==> entry_is_token_list(#[trigger] t[i].1)
}

/// No user id is registered by two entries.
pub open spec fn users_distinct(t: Seq<(String, ConfigValue)>) -> bool {
    forall|i: int, j: int| 0 <= i < j < t.len() ==> #[trigger] t[i].0@ != #[trigger] t[j].0@
}

/// No token occurs at two distinct positions.
pub open spec fn tokens_distinct(t: Seq<(String, ConfigValue)>) -> bool {
    forall|i: int, k: int, j: int, l: int|
        #![trigger token_at(t, i, k), token_at(t, j, l)]
        token_pos(t, i, k) && token_pos(t, j, l) && (i != j || k != l)
            ==> token_at(t, i, k) != token_at(t, j, l)
}

/// Both tables concatenated, broadcasters first (meaningful when both are
/// present).
pub open spec fn config_tables(c: AuthConfig) -> Seq<(String, ConfigValue)> {
    c.broadcaster_auth->Some_0@ + c.reader_auth->Some_0@
}

/// The text of element `k` of a token array (meaningful when it is a string).
pub open spec fn item_text(items: Seq<ConfigValue>, k: int) -> Seq<char> {
    items[k]->Text_0@
}

/// Membership in concatenated tables is membership in either part.
pub proof fn lemma_tables_concat_membership(
    b: Seq<(String, ConfigValue)>,
    r: Seq<(String, ConfigValue)>,
)
    ensures
        forall|u: Seq<char>| table_has_user(b + r, u) <==> (table_has_user(b, u) || table_has_user(
            r,
            u,
        )),
        forall|tok: Seq<char>| table_has_token(b + r, tok) <==> (table_has_token(b, tok)
            || table_has_token(r, tok)),
{
    let all = b + r;
    assert forall|u: Seq<char>|
        table_has_user(all, u) <==> (table_has_user(b, u) || table_has_user(r, u)) by {
        if table_has_user(all, u) {
            let i = choose|i: int| 0 <= i < all.len() && all[i].0@ == u;
            if i < b.len() {
                assert(b[i].0@ == u);
            } else {
                assert(r[i - b.len()].0@ == u);
            }
        }
        if table_has_user(b, u) {
            let i = choose|i: int| 0 <= i < b.len() && b[i].0@ == u;
            assert(all[i].0@ == u);
        }
        if table_has_user(r, u) {
            let i = choose|i: int| 0 <= i < r.len() && r[i].0@ == u;
            assert(all[b.len() + i].0@ == u);
        }
    }
    assert forall|tok: Seq<char>|
        table_has_token(all, tok) <==> (table_has_token(b, tok) || table_has_token(r, tok)) by {
        if table_has_token(all, tok) {
            let (i, k): (int, int) = choose|i: int, k: int|
                token_pos(all, i, k) && token_at(all, i, k) == tok;
            if i < b.len() {
                assert(token_pos(b, i, k) && token_at(b, i, k) == tok);
            } else {
                assert(all[i] == r[i - b.len()]);
                assert(token_pos(r, i - b.len(), k) && token_at(r, i - b.len(), k) == tok);
            }
        }
        if table_has_token(b, tok) {
            let (i, k): (int, int) = choose|i: int, k: int|
                token_pos(b, i, k) && token_at(b, i, k) == tok;
            assert(all[i] == b[i]);
            assert(token_pos(all, i, k) && token_at(all, i, k) == tok);
        }
        if table_has_token(r, tok) {
            let (i, k): (int, int) = choose|i: int, k: int|
                token_pos(r, i, k) && token_at(r, i, k) == tok;
            assert(all[b.len() + i] == r[i]);
            assert(token_pos(all, b.len() + i, k) && token_at(all, b.len() + i, k) == tok);
        }
    }
}

/// Well-formedness and distinctness of concatenated tables, decomposed into
/// the parts and the absence of collisions between them.
pub proof fn lemma_tables_concat_wf(b: Seq<(String, ConfigValue)>, r: Seq<(String, ConfigValue)>)
    ensures
        tables_wf(b + r) <==> (tables_wf(b) && tables_wf(r)),
        users_distinct(b + r) <==> (users_distinct(b) && users_distinct(r) && (forall|u: Seq<char>|
            !(table_has_user(b, u) && table_has_user(r, u)))),
        tokens_distinct(b + r) <==> (tokens_distinct(b) && tokens_distinct(r) && (forall|
            tok: Seq<char>,
        |
            !(table_has_token(b, tok) && table_has_token(r, tok)))),
{
    let all = b + r;
    assert(forall|i: int| 0 <= i < b.len() ==> all[i] == #[trigger] b[i]);
    assert(forall|i: int| 0 <= i < r.len() ==> all[b.len() + i] == #[trigger] r[i]);
    if tables_wf(all) {
        assert forall|i: int| 0 <= i < b.len() implies entry_is_token_list(#[trigger] b[i].1) by {
            assert(all[i] == b[i]);
        }
        assert forall|i: int| 0 <= i < r.len() implies entry_is_token_list(#[trigger] r[i].1) by {
            assert(all[b.len() + i] == r[i]);
        }
    }
    if tables_wf(b) && tables_wf(r) {
        assert forall|i: int| 0 <= i < all.len() implies entry_is_token_list(
            #[trigger] all[i].1,
        ) by {
            if i < b.len() {
                assert(all[i] == b[i]);
            } else {
                assert(all[i] == r[i - b.len()]);
            }
        }
    }
    if users_distinct(all) {
        assert forall|u: Seq<char>| !(table_has_user(b, u) && table_has_user(r, u)) by {
            if table_has_user(b, u) && table_has_user(r, u) {
                let i = choose|i: int| 0 <= i < b.len() && b[i].0@ == u;
                let j = choose|j: int| 0 <= j < r.len() && r[j].0@ == u;
                assert(all[i].0@ == all[b.len() + j].0@);
            }
        }
    }
    if users_distinct(b) && users_distinct(r) && (forall|u: Seq<char>|
        !(table_has_user(b, u) && table_has_user(r, u)))  {
        assert forall|i: int, j: int| 0 <= i < j < all.len() implies #[trigger] all[i].0@
            != #[trigger] all[j].0@ by {
            if j < b.len() {
                assert(all[i].0@ == b[i].0@ && all[j].0@ == b[j].0@);
            } else if i >= b.len() {
                assert(all[i].0@ == r[i - b.len()].0@ && all[j].0@ == r[j - b.len()].0@);
            } else {
                assert(all[i].0@ == b[i].0@ && all[j].0@ == r[j - b.len()].0@);
                if all[i].0@ == all[j].0@ {
                    assert(table_has_user(b, all[i].0@));
                    assert(table_has_user(r, all[i].0@));
                }
            }
        }
    }
    if tokens_distinct(all) {
        assert forall|i: int, k: int, j: int, l: int|
            #![trigger token_at(b, i, k), token_at(b, j, l)]
            token_pos(b, i, k) && token_pos(b, j, l) && (i != j || k != l) implies token_at(
            b,
            i,
            k,
        ) != token_at(b, j, l) by {
            assert(all[i] == b[i] && all[j] == b[j]);
            assert(token_at(all, i, k) != token_at(all, j, l));
        }
        assert forall|i: int, k: int, j: int, l: int|
            #![trigger token_at(r, i, k), token_at(r, j, l)]
            token_pos(r, i, k) && token_pos(r, j, l) && (i != j || k != l) implies token_at(
            r,
            i,
            k,
        ) != token_at(r, j, l) by {
            assert(all[b.len() + i] == r[i] && all[b.len() + j] == r[j]);
            assert(token_at(all, b.len() + i, k) != token_at(all, b.len() + j, l));
        }
        assert forall|tok: Seq<char>| !(table_has_token(b, tok) && table_has_token(r, tok)) by {
            if table_has_token(b, tok) && table_has_token(r, tok) {
                let (i, k): (int, int) = choose|i: int, k: int|
                    token_pos(b, i, k) && token_at(b, i, k) == tok;
                let (j, l): (int, int) = choose|j: int, l: int|
                    token_pos(r, j, l) && token_at(r, j, l) == tok;
                assert(all[i] == b[i] && all[b.len() + j] == r[j]);
                assert(token_at(all, i, k) == tok && token_at(all, b.len() + j, l) == tok);
                assert(token_pos(all, i, k) && token_pos(all, b.len() + j, l));
            }
        }
    }
    if tokens_distinct(b) && tokens_distinct(r) && (forall|tok: Seq<char>|
        !(table_has_token(b, tok) && table_has_token(r, tok)))  {
        assert forall|i: int, k: int, j: int, l: int|
            #![trigger token_at(all, i, k), token_at(all, j, l)]
            token_pos(all, i, k) && token_pos(all, j, l) && (i != j || k != l) implies token_at(
            all,
            i,
            k,
        ) != token_at(all, j, l) by {
            if i < b.len() && j < b.len() {
                assert(all[i] == b[i] && all[j] == b[j]);
                assert(token_at(b, i, k) != token_at(b, j, l));
            } else if i >= b.len() && j >= b.len() {
                assert(all[i] == r[i - b.len()] && all[j] == r[j - b.len()]);
                assert(token_at(r, i - b.len(), k) != token_at(r, j - b.len(), l));
            } else if i < b.len() && j >= b.len() {
                assert(all[i] == b[i] && all[j] == r[j - b.len()]);
                assert(token_pos(b, i, k) && token_at(b, i, k) == token_at(all, i, k));
                assert(token_pos(r, j - b.len(), l) && token_at(r, j - b.len(), l) == token_at(
                    all,
                    j,
                    l,
                ));
                if token_at(all, i, k) == token_at(all, j, l) {
                    assert(table_has_token(b, token_at(all, i, k)));
                    assert(table_has_token(r, token_at(all, i, k)));
                }
            } else {
                assert(all[j] == b[j] && all[i] == r[i - b.len()]);
                assert(token_pos(b, j, l) && token_at(b, j, l) == token_at(all, j, l));
                assert(token_pos(r, i - b.len(), k) && token_at(r, i - b.len(), k) == token_at(
                    all,
                    i,
                    k,
                ));
                if token_at(all, i, k) == token_at(all, j, l) {
                    assert(table_has_token(b, token_at(all, j, l)));
                    assert(table_has_token(r, token_at(all, j, l)));
                }
            }
        }
    }
}

/// Registry construction succeeds exactly on such a configuration: both
/// tables present, every value an array of strings, and user ids and tokens
/// pairwise distinct across both tables.
pub open spec fn config_ok(c: AuthConfig) -> bool {
    &&& c.broadcaster_auth is Some
    &&& c.reader_auth is Some
    &&& tables_wf(config_tables(c))
    &&& users_distinct(config_tables(c))
    &&& tokens_distinct(config_tables(c))
}

} // verus!
