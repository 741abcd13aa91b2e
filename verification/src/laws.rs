//! Laws of the library, each stated over the spec functions its public
//! contracts use: what a consistent configuration guarantees for every
//! configured token, which inconsistencies make construction fail, and which
//! malformed requests are rejected.

use vstd::prelude::*;
use crate::auth::Group;
use crate::auth::config_group;
use crate::auth::parse_bearer_token;
use crate::auth::registry_of_config;
use crate::auth::spec_authenticated_user;
use crate::config::AuthConfig;
use crate::config::config_ok;
use crate::config::config_tables;
use crate::config::table_has_token;
use crate::config::table_has_user;
use crate::config::token_at;
use crate::config::token_pos;
use crate::error::HandlerErrorKind;
use crate::headers::spec_get_one;
use crate::text::char_eq_ci_spec;
use crate::text::first_space;
use crate::text::has_space;
use crate::text::is_first_space;
use crate::text::lemma_first_space_unique;
use crate::text::seq_eq_ci;

verus! {

/// The `Authorization` header value that carries `tok` as a bearer token.
pub open spec fn bearer_header(tok: Seq<char>) -> Seq<char> {
    "Bearer "@ + tok
}

/// Parsing a `Bearer `-prefixed header value yields exactly the token after
/// the space, whatever the token holds.
pub proof fn lemma_parse_bearer_header(tok: Seq<char>)
    ensures
        parse_bearer_token(bearer_header(tok)) == Some(tok),
{
    reveal_strlit("Bearer ");
    reveal_strlit("bearer");
    let v = bearer_header(tok);
    assert(v[6] == ' ');
    assert(is_first_space(v, 6));
    lemma_first_space_unique(v, first_space(v), 6);
    assert(first_space(v) == 6);
    let scheme = v.take(6);
    assert forall|j: int| 0 <= j < 6 implies char_eq_ci_spec(scheme[j], "bearer"@[j]) by {
        assert(scheme[j] == "Bearer "@[j]);
        if j == 0 {
            assert(char_eq_ci_spec('B', 'b'));
        } else if j == 1 {
            assert(char_eq_ci_spec('e', 'e'));
        } else if j == 2 {
            assert(char_eq_ci_spec('a', 'a'));
        } else if j == 3 {
            assert(char_eq_ci_spec('r', 'r'));
        } else if j == 4 {
            assert(char_eq_ci_spec('e', 'e'));
        } else {
            assert(char_eq_ci_spec('r', 'r'));
        }
    }
    assert(seq_eq_ci(scheme, "bearer"@));
    assert(v.skip(7) =~= tok);
}

/// For a consistent configuration, every configured token authenticates to
/// exactly its configured user id and that user's configured role, whatever
/// else the request's headers hold.
pub proof fn lemma_configured_token_authenticates(
    c: AuthConfig,
    users: Map<Seq<char>, Seq<char>>,
    groups: Map<Seq<char>, Group>,
    h: Seq<(Seq<char>, Seq<char>)>,
    i: int,
    k: int,
)
    requires
        config_ok(c),
        registry_of_config(users, groups, c),
        token_pos(config_tables(c), i, k),
        spec_get_one(h, "Authorization"@) == Some(
            bearer_header(token_at(config_tables(c), i, k)),
        ),
    ensures
        spec_authenticated_user(users, groups, h) == Ok::<(Seq<char>, Group), HandlerErrorKind>(
            (config_tables(c)[i].0@, config_group(c, i)),
        ),
{
    let all = config_tables(c);
    let tok = token_at(all, i, k);
    lemma_parse_bearer_header(tok);
    assert(table_has_token(all, tok));
    assert(users.contains_key(tok));
    assert(users[tok] == all[i].0@);
    assert(table_has_user(all, all[i].0@)) by {
        assert(all[i].0@ == all[i].0@);
    }
    assert(groups.contains_key(all[i].0@));
    assert(groups[all[i].0@] == config_group(c, i));
}

/// A token reused by two different user ids, in the same role or different
/// ones, makes registry construction fail.
pub proof fn lemma_duplicate_token_rejected(c: AuthConfig, i: int, k: int, j: int, l: int)
    requires
        token_pos(config_tables(c), i, k),
        token_pos(config_tables(c), j, l),
        config_tables(c)[i].0@ != config_tables(c)[j].0@,
        token_at(config_tables(c), i, k) == token_at(config_tables(c), j, l),
    ensures
        !config_ok(c),
{
    assert(i != j);
}

/// A user id present in both the broadcaster and the reader table makes
/// registry construction fail.
pub proof fn lemma_duplicate_user_rejected(c: AuthConfig, u: Seq<char>)
    requires
        c.broadcaster_auth is Some,
        c.reader_auth is Some,
        table_has_user(c.broadcaster_auth->Some_0@, u),
        table_has_user(c.reader_auth->Some_0@, u),
    ensures
        !config_ok(c),
{
    let b = c.broadcaster_auth->Some_0@;
    let rr = c.reader_auth->Some_0@;
    let all = config_tables(c);
    let x = choose|x: int| 0 <= x < b.len() && #[trigger] b[x].0@ == u;
    let y = choose|y: int| 0 <= y < rr.len() && #[trigger] rr[y].0@ == u;
    assert(all[x].0@ == u && all[b.len() + y].0@ == u);
    assert(0 <= x < b.len() + y < all.len());
}

/// A request without an `Authorization` header fails as `MissingAuth`, for
/// every registry.
pub proof fn lemma_missing_auth(
    users: Map<Seq<char>, Seq<char>>,
    groups: Map<Seq<char>, Group>,
    h: Seq<(Seq<char>, Seq<char>)>,
)
    requires
        spec_get_one(h, "Authorization"@) is None,
    ensures
        spec_authenticated_user(users, groups, h) == Err::<(Seq<char>, Group), HandlerErrorKind>(
            HandlerErrorKind::MissingAuth,
        ),
{
}

/// An `Authorization` header value with no space separator fails as
/// `InvalidAuth`, for every registry.
pub proof fn lemma_no_space_invalid(
    users: Map<Seq<char>, Seq<char>>,
    groups: Map<Seq<char>, Group>,
    h: Seq<(Seq<char>, Seq<char>)>,
    v: Seq<char>,
)
    requires
        spec_get_one(h, "Authorization"@) == Some(v),
        !has_space(v),
    ensures
        spec_authenticated_user(users, groups, h) == Err::<(Seq<char>, Group), HandlerErrorKind>(
            HandlerErrorKind::InvalidAuth,
        ),
{
}

/// An `Authorization` header value whose scheme is not `Bearer` up to ASCII
/// case fails as `InvalidAuth`, for every registry.
pub proof fn lemma_wrong_scheme_invalid(
    users: Map<Seq<char>, Seq<char>>,
    groups: Map<Seq<char>, Group>,
    h: Seq<(Seq<char>, Seq<char>)>,
    v: Seq<char>,
    i: int,
)
    requires
        spec_get_one(h, "Authorization"@) == Some(v),
        is_first_space(v, i),
        !seq_eq_ci(v.take(i), "bearer"@),
    ensures
        spec_authenticated_user(users, groups, h) == Err::<(Seq<char>, Group), HandlerErrorKind>(
            HandlerErrorKind::InvalidAuth,
        ),
{
    lemma_first_space_unique(v, first_space(v), i);
}

/// A well-formed `Authorization` header whose token is not registered fails
/// as `InvalidAuth`.
pub proof fn lemma_unregistered_token_invalid(
    users: Map<Seq<char>, Seq<char>>,
    groups: Map<Seq<char>, Group>,
    h: Seq<(Seq<char>, Seq<char>)>,
    v: Seq<char>,
    tok: Seq<char>,
)
    requires
        spec_get_one(h, "Authorization"@) == Some(v),
        parse_bearer_token(v) == Some(tok),
        !users.contains_key(tok),
    ensures
        spec_authenticated_user(users, groups, h) == Err::<(Seq<char>, Group), HandlerErrorKind>(
            HandlerErrorKind::InvalidAuth,
        ),
{
}

} // verus!
