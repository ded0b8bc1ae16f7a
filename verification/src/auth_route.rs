//! Which credential a request's token is, and where the token comes from.
//!
//! A token that starts with the admin token is the admin's: alone it asks
//! for any pooled token, followed by `-` and an alias for the token of that
//! alias, followed by anything else it is refused.  Otherwise the shared
//! token asks for any pooled token, a token key for the token it was issued
//! for, and any other text is a dynamic key where those are enabled.
use crate::text::{ascii_chars, is_ascii_bytes, str_eq, string_from_ascii};
use crate::token::{spec_key_parse, TokenKey};
use vstd::prelude::*;
use vstd::string::{StrSliceExecFns, StringExecFns, StringSliceAdditionalSpecFns};

verus! {

/// The credential a token stands for.
pub enum AuthRoute {
    /// The admin token alone: any token of the pool.
    Admin,
    /// The admin token, `-` and an alias: the token of that alias.
    AdminAlias(String),
    /// The shared token: any token of the pool.
    Share,
    /// The key of an issued token.
    Key(TokenKey),
    /// A dynamic key, to be decoded.
    Dynamic,
    /// None of these.
    Unauthorized,
}

/// Whether `p` starts `s`.
pub open spec fn is_prefix(p: Seq<char>, s: Seq<char>) -> bool {
    p.len() <= s.len() && s.take(p.len() as int) == p
}

/// Whether `r` is the route of the token `token`, given the admin token,
/// whether the token is the shared one, whether dynamic keys are enabled,
/// and what reading the token as a key gives.
pub open spec fn routes_to(
    token: Seq<char>,
    admin: Seq<char>,
    is_share: bool,
    dynamic: bool,
    key: Option<(u128, u64)>,
    r: AuthRoute,
) -> bool {
    if is_prefix(admin, token) {
        let part = token.skip(admin.len() as int);
        if part.len() == 0 {
            r is Admin
        } else if part[0] == '-' {
            r matches AuthRoute::AdminAlias(a) && a@ == part.skip(1)
        } else {
            r is Unauthorized
        }
    } else if is_share {
        r is Share
    } else {
        match key {
            Some((user, random)) => r matches AuthRoute::Key(k) && k.user_id@ == user
                && k.randomness@ == random,
            None => if dynamic {
                r is Dynamic
            } else {
                r is Unauthorized
            },
        }
    }
}

/// `s` without the prefix `p`, or `None` when `p` does not start it.
pub fn strip_prefix<'a>(s: &'a str, p: &str) -> (r: Option<&'a str>)
    ensures
        match r {
            Some(rest) => is_prefix(p@, s@) && rest@ == s@.skip(p@.len() as int),
            None => !is_prefix(p@, s@),
        },
{
    let n = s.unicode_len();
    let k = p.unicode_len();
    if k > n {
        return None;
    }
    let head = s.substring_char(0, k);
    if str_eq(head, p) {
        Some(s.substring_char(k, n))
    } else {
        None
    }
}

/// How a token is routed: a token that begins with the admin token is the
/// admin's (alone) and never anything else; otherwise the shared token is
/// `Share`; otherwise a token that reads as a token key is that key,
/// whether dynamic keys are enabled or not; and only a token that is none
/// of these is a dynamic key, where those are enabled, or else refused.
pub proof fn lemma_route_order(
    token: Seq<char>,
    admin: Seq<char>,
    is_share: bool,
    dynamic: bool,
    key: Option<(u128, u64)>,
    r: AuthRoute,
)
    requires
        routes_to(token, admin, is_share, dynamic, key, r),
    ensures
        token == admin ==> r is Admin,
        is_prefix(admin, token) ==> (r is Admin || r is AdminAlias || r is Unauthorized),
        !is_prefix(admin, token) && is_share ==> r is Share,
        !is_prefix(admin, token) && !is_share ==> match key {
            Some((user, random)) => r matches AuthRoute::Key(k) && k.user_id@ == user
                && k.randomness@ == random,
            None => true,
        },
        !is_prefix(admin, token) && !is_share && key is None ==> (r is Dynamic <==> dynamic),
        !is_prefix(admin, token) && !is_share && key is None ==> (r is Dynamic
            || r is Unauthorized),
        r is Dynamic ==> dynamic && key is None && !is_share && !is_prefix(admin, token),
        r is Key ==> key is Some,
        is_prefix(admin, token) && token.len() > admin.len() && token[admin.len() as int] == '-'
            ==> (r matches AuthRoute::AdminAlias(a) && admin + seq!['-'] + a@ == token),
        is_prefix(admin, token) && token.len() > admin.len() && token[admin.len() as int] != '-'
            ==> r is Unauthorized,
        r matches AuthRoute::AdminAlias(a) ==> admin + seq!['-'] + a@ == token,
{
    if is_prefix(admin, token) {
        let part = token.skip(admin.len() as int);
        if part.len() > 0 {
            assert(part[0] == token[admin.len() as int]);
            if part[0] == '-' {
                assert(admin + seq!['-'] + part.skip(1) =~= token);
            }
        }
    }
    if token == admin {
        assert(token.take(admin.len() as int) =~= admin);
        assert(token.skip(admin.len() as int).len() == 0);
    }
}

/// The route of a request's token.  `admin_token` is the configured admin
/// token and `is_share` whether sharing is on and the token is the shared
/// one; token keys are read in the machine's byte order.
pub fn route_token(auth_token: &str, admin_token: &str, is_share: bool, dynamic_enabled: bool) -> (r:
    AuthRoute)
    ensures
        exists|little: bool|
            #![trigger spec_key_parse(auth_token.spec_bytes(), little)]
            routes_to(
                auth_token@,
                admin_token@,
                is_share,
                dynamic_enabled,
                spec_key_parse(auth_token.spec_bytes(), little),
                r,
            ),
{
    let ghost bytes = auth_token.spec_bytes();
    match strip_prefix(auth_token, admin_token) {
        Some(part) => {
            let n = part.unicode_len();
            let r = if n == 0 {
                AuthRoute::Admin
            } else if part.get_char(0) == '-' {
                let alias = part.substring_char(1, n);
                proof {
                    assert(alias@ =~= part@.skip(1));
                }
                AuthRoute::AdminAlias(String::from_str(alias))
            } else {
                AuthRoute::Unauthorized
            };
            proof {
                assert(routes_to(
                    auth_token@,
                    admin_token@,
                    is_share,
                    dynamic_enabled,
                    spec_key_parse(bytes, true),
                    r,
                ));
            }
            r
        },
        None => {
            if is_share {
                proof {
                    assert(routes_to(
                        auth_token@,
                        admin_token@,
                        is_share,
                        dynamic_enabled,
                        spec_key_parse(bytes, true),
                        AuthRoute::Share,
                    ));
                }
                AuthRoute::Share
            } else {
                match TokenKey::from_string(auth_token) {
                    Some(k) => AuthRoute::Key(k),
                    None => if dynamic_enabled {
                        AuthRoute::Dynamic
                    } else {
                        AuthRoute::Unauthorized
                    },
                }
            }
        },
    }
}

/// Whether a header value is visible ASCII (tab allowed), the text that
/// `HeaderValue::to_str` accepts.
pub open spec fn is_visible_ascii(v: Seq<u8>) -> bool {
    forall|i: int| 0 <= i < v.len() ==> (32 <= #[trigger] v[i] < 127 || v[i] == 9)
}

fn header_text(v: &[u8]) -> (r: Option<String>)
    ensures
        match r {
            Some(s) => is_visible_ascii(v@) && s@ == ascii_chars(v@),
            None => !is_visible_ascii(v@),
        },
{
    let mut out: Vec<u8> = Vec::new();
    let mut i: usize = 0;
    while i < v.len()
        invariant
            i <= v@.len(),
            out@ == v@.take(i as int),
            forall|j: int| 0 <= j < i ==> (32 <= #[trigger] v@[j] < 127 || v@[j] == 9),
        decreases v@.len() - i,
    {
        let b = v[i];
        if !((32 <= b && b < 127) || b == 9) {
            return None;
        }
        out.push(b);
        proof {
            assert(out@ =~= v@.take(i + 1));
        }
        i = i + 1;
    }
    proof {
        assert(out@ =~= v@);
    }
    Some(string_from_ascii(out))
}

/// The token a request carries: the API-key header's value when it is
/// visible ASCII; else the authorization header's value after
/// `bearer_prefix`, when it is visible ASCII and has that prefix.
pub fn request_token(api_key: Option<&[u8]>, authorization: Option<&[u8]>, bearer_prefix: &str) -> (r:
    Option<String>)
    ensures
        match api_key {
            Some(v) if is_visible_ascii(v@) => r matches Some(t) && t@ == ascii_chars(v@),
            _ => match authorization {
                Some(v) if is_visible_ascii(v@) => {
                    let text = ascii_chars(v@);
                    match r {
                        Some(t) => is_prefix(bearer_prefix@, text) && t@ == text.skip(
                            bearer_prefix@.len() as int,
                        ),
                        None => !is_prefix(bearer_prefix@, text),
                    }
                },
                _ => r is None,
            },
        },
{
    if let Some(v) = api_key {
        if let Some(t) = header_text(v) {
            return Some(t);
        }
    }
    match authorization {
        Some(v) => match header_text(v) {
            Some(t) => match strip_prefix(t.as_str(), bearer_prefix) {
                Some(rest) => Some(String::from_str(rest)),
                None => None,
            },
            None => None,
        },
        None => None,
    }
}

} // verus!
