//! Proxy settings and the pool of HTTP clients made for them.
//!
//! A proxy address is whatever reqwest accepts as one; a setting is "no
//! proxy", "the system proxy" or an address.  A configuration names its
//! settings and picks one name as the general one; the pool keeps one client
//! per setting in use.  The clients themselves are built outside this crate:
//! here are the decisions that keep names, settings and pool consistent.
use crate::text::str_eq;
use vstd::prelude::*;
use vstd::string::StringExecFns;

verus! {

#[verifier::external_type_specification]
#[verifier::external_body]
pub struct ExReqwestProxy(reqwest::Proxy);

/// Whether reqwest takes `url` as the address of a proxy.
pub uninterp spec fn proxy_address_accepted(url: Seq<char>) -> bool;

/// `reqwest::Proxy::all`: reads the text as a URL with a host (trying again
/// with `http://` in front when the text has no scheme) and makes a proxy
/// for every request of it; its error is handed on as its message.  Claimed
/// here: it succeeds exactly on the texts that `proxy_address_accepted` holds
/// of, which depends on the text alone.  Nothing is claimed of the message.
#[verifier::external_body]
fn proxy_for_all(url: &str) -> (r: Result<reqwest::Proxy, String>)
    ensures
        r is Ok <==> proxy_address_accepted(url@),
{
    match reqwest::Proxy::all(url) {
        Ok(p) => Ok(p),
        Err(e) => Err(e.to_string()),
    }
}

/// A proxy address that reqwest accepts.
#[derive(Hash)]
pub struct ProxyUrl(String);

impl View for ProxyUrl {
    type V = Seq<char>;

    closed spec fn view(&self) -> Seq<char> {
        self.0@
    }
}

impl ProxyUrl {
    #[verifier::type_invariant]
    spec fn accepted(self) -> bool {
        proxy_address_accepted(self.0@)
    }

    /// The address, checked by reqwest; the error is reqwest's message.
    pub fn from_str(s: &str) -> (r: Result<ProxyUrl, String>)
        ensures
            r is Ok <==> proxy_address_accepted(s@),
            r matches Ok(u) ==> u@ == s@,
    {
        match proxy_for_all(s) {
            Ok(_) => Ok(ProxyUrl(String::from_str(s))),
            Err(e) => Err(e),
        }
    }

    /// The address as text.
    pub fn as_str(&self) -> (r: &str)
        ensures
            r@ == self@,
            proxy_address_accepted(r@),
    {
        proof {
            use_type_invariant(self);
        }
        self.0.as_str()
    }

    /// The address as an owned text.
    pub fn to_string(&self) -> (r: String)
        ensures
            r@ == self@,
    {
        String::from_str(self.0.as_str())
    }

    /// The proxy that reqwest makes of the address.
    pub fn to_proxy(&self) -> reqwest::Proxy {
        proof {
            use_type_invariant(self);
        }
        proxy_for_all(self.0.as_str()).unwrap()
    }
}

impl Clone for ProxyUrl {
    fn clone(&self) -> (r: Self)
        ensures
            r@ == self@,
    {
        proof {
            use_type_invariant(self);
        }
        ProxyUrl(self.0.clone())
    }
}

impl PartialEq for ProxyUrl {
    fn eq(&self, other: &Self) -> (r: bool) {
        str_eq(self.0.as_str(), other.0.as_str())
    }
}

impl vstd::std_specs::cmp::PartialEqSpecImpl for ProxyUrl {
    open spec fn obeys_eq_spec() -> bool {
        true
    }

    open spec fn eq_spec(&self, other: &ProxyUrl) -> bool {
        self@ == other@
    }
}

impl Eq for ProxyUrl {
}

/// What a proxy setting stands for.
pub enum ProxySetting {
    Non,
    Sys,
    Url(Seq<char>),
}

/// One proxy setting.
#[derive(Clone, Hash)]
pub enum SingleProxy {
    /// No proxy.
    Non,
    /// The system's proxy.
    Sys,
    /// The proxy at an address.
    Url(ProxyUrl),
}

impl View for SingleProxy {
    type V = ProxySetting;

    open spec fn view(&self) -> ProxySetting {
        match self {
            SingleProxy::Non => ProxySetting::Non,
            SingleProxy::Sys => ProxySetting::Sys,
            SingleProxy::Url(u) => ProxySetting::Url(u@),
        }
    }
}

/// The setting a text stands for: `non`, `sys`, or an address that reqwest
/// accepts.
pub open spec fn setting_of(s: Seq<char>) -> Option<ProxySetting> {
    if s == "non"@ {
        Some(ProxySetting::Non)
    } else if s == "sys"@ {
        Some(ProxySetting::Sys)
    } else if proxy_address_accepted(s) {
        Some(ProxySetting::Url(s))
    } else {
        None
    }
}

/// The text of a setting.
pub open spec fn setting_text(p: ProxySetting) -> Seq<char> {
    match p {
        ProxySetting::Non => "non"@,
        ProxySetting::Sys => "sys"@,
        ProxySetting::Url(u) => u,
    }
}

impl SingleProxy {
    /// The setting a text names: `non`, `sys` or a proxy address; the error
    /// is reqwest's message on an address it refuses.
    pub fn from_str(s: &str) -> (r: Result<SingleProxy, String>)
        ensures
            match r {
                Ok(p) => setting_of(s@) == Some(p@),
                Err(_) => setting_of(s@) is None,
            },
    {
        if str_eq(s, "non") {
            Ok(SingleProxy::Non)
        } else if str_eq(s, "sys") {
            Ok(SingleProxy::Sys)
        } else {
            match ProxyUrl::from_str(s) {
                Ok(u) => Ok(SingleProxy::Url(u)),
                Err(e) => Err(e),
            }
        }
    }

    /// The text of the setting.
    pub fn to_string(&self) -> (r: String)
        ensures
            r@ == setting_text(self@),
    {
        match self {
            SingleProxy::Non => String::from_str("non"),
            SingleProxy::Sys => String::from_str("sys"),
            SingleProxy::Url(u) => u.to_string(),
        }
    }
}

impl PartialEq for SingleProxy {
    fn eq(&self, other: &Self) -> (r: bool) {
        match (self, other) {
            (SingleProxy::Non, SingleProxy::Non) => true,
            (SingleProxy::Sys, SingleProxy::Sys) => true,
            (SingleProxy::Url(a), SingleProxy::Url(b)) => a == b,
            _ => false,
        }
    }
}

impl vstd::std_specs::cmp::PartialEqSpecImpl for SingleProxy {
    open spec fn obeys_eq_spec() -> bool {
        true
    }

    open spec fn eq_spec(&self, other: &SingleProxy) -> bool {
        self@ == other@
    }
}

impl Eq for SingleProxy {
}

/// Reading a setting's text gives back the text.
pub proof fn lemma_setting_text_of(s: Seq<char>)
    ensures
        setting_of(s) matches Some(p) ==> setting_text(p) == s,
{
}

/// The text of a setting reads back as the same setting, unless it is an
/// address spelled `non` or `sys`.
pub proof fn lemma_setting_of_text(p: ProxySetting)
    requires
        p matches ProxySetting::Url(u) ==> proxy_address_accepted(u) && u != "non"@ && u
            != "sys"@,
    ensures
        setting_of(setting_text(p)) == Some(p),
{
    reveal_strlit("non");
    reveal_strlit("sys");
    match p {
        ProxySetting::Non => {},
        ProxySetting::Sys => {
            assert("sys"@[0] != "non"@[0]);
        },
        ProxySetting::Url(u) => {},
    }
}

/// The names of a configuration as texts.
pub open spec fn name_texts(names: Seq<String>) -> Seq<Seq<char>> {
    names.map_values(|n: String| n@)
}

/// The general name of a settled configuration: `sys` when no proxy is
/// configured (the configuration then falls back to the system proxy alone
/// under that name), the configured general name when it names a proxy,
/// else the first name.
pub open spec fn settled_general(names: Seq<Seq<char>>, general: Seq<char>) -> Seq<char> {
    if names.len() == 0 {
        "sys"@
    } else if names.contains(general) {
        general
    } else {
        names[0]
    }
}

/// The general name once a configuration is settled, given its proxy names
/// in the order its map yields them.
pub fn settle_general(names: &Vec<String>, general: &str) -> (r: String)
    ensures
        r@ == settled_general(name_texts(names@), general@),
{
    if names.len() == 0 {
        return String::from_str("sys");
    }
    let ghost texts = name_texts(names@);
    let mut i: usize = 0;
    while i < names.len()
        invariant
            i <= names@.len(),
            texts == name_texts(names@),
            forall|j: int| 0 <= j < i ==> #[trigger] texts[j] != general@,
        decreases names@.len() - i,
    {
        if str_eq(names[i].as_str(), general) {
            proof {
                assert(texts[i as int] == general@);
            }
            return String::from_str(general);
        }
        i = i + 1;
    }
    proof {
        assert(!texts.contains(general@));
        assert(texts[0] == names@[0]@);
    }
    names[0].clone()
}

/// Settling a settled configuration changes nothing, and a settled general
/// name names one of the configured proxies.
pub proof fn lemma_settled_general(names: Seq<Seq<char>>, general: Seq<char>)
    ensures
        settled_general(names, settled_general(names, general)) == settled_general(
            names,
            general,
        ),
        names.len() > 0 ==> names.contains(settled_general(names, general)),
{
    if names.len() > 0 && !names.contains(general) {
        assert(names.contains(names[0]));
    }
}

/// The settings of a list of proxies.
pub open spec fn settings(ps: Seq<SingleProxy>) -> Seq<ProxySetting> {
    ps.map_values(|p: SingleProxy| p@)
}

/// The positions below `n`, ascending, at which `keep` holds.
pub open spec fn positions_where(n: nat, keep: spec_fn(int) -> bool) -> Seq<usize>
    decreases n,
{
    if n == 0 {
        Seq::empty()
    } else {
        let rest = positions_where((n - 1) as nat, keep);
        if keep(n - 1) {
            rest.push((n - 1) as usize)
        } else {
            rest
        }
    }
}

/// Whether the pooled client at `i` serves a setting that no configured
/// proxy uses any more.
pub open spec fn is_stale(pooled: Seq<ProxySetting>, configured: Seq<ProxySetting>, i: int) -> bool {
    !configured.contains(pooled[i])
}

/// Whether the configured setting at `j` needs a new client: no pooled
/// client serves it and it does not occur earlier in the configuration.
pub open spec fn is_missing(configured: Seq<ProxySetting>, pooled: Seq<ProxySetting>, j: int) -> bool {
    !pooled.contains(configured[j]) && !configured.take(j).contains(configured[j])
}

pub open spec fn stale_at(pooled: Seq<ProxySetting>, configured: Seq<ProxySetting>) -> spec_fn(
    int,
) -> bool {
    |i: int| is_stale(pooled, configured, i)
}

pub open spec fn missing_at(configured: Seq<ProxySetting>, pooled: Seq<ProxySetting>) -> spec_fn(
    int,
) -> bool {
    |j: int| is_missing(configured, pooled, j)
}

/// Whether one of the first `upto` proxies of `ps` has the setting of `p`.
fn holds_setting(ps: &Vec<SingleProxy>, upto: usize, p: &SingleProxy) -> (r: bool)
    requires
        upto <= ps@.len(),
    ensures
        r == settings(ps@).take(upto as int).contains(p@),
{
    let ghost all = settings(ps@);
    let mut i: usize = 0;
    while i < upto
        invariant
            upto <= ps@.len(),
            i <= upto,
            all == settings(ps@),
            forall|k: int| 0 <= k < i ==> #[trigger] all[k] != p@,
        decreases upto - i,
    {
        if ps[i] == *p {
            proof {
                assert(all.take(upto as int)[i as int] == p@);
            }
            return true;
        }
        i = i + 1;
    }
    proof {
        assert forall|k: int| 0 <= k < upto implies #[trigger] all.take(upto as int)[k] != p@ by {
            assert(all.take(upto as int)[k] == all[k]);
        }
    }
    false
}

/// The positions, ascending, of the pooled clients whose setting no
/// configured proxy uses any more: the clients to drop.
pub fn stale_clients(pooled: &Vec<SingleProxy>, configured: &Vec<SingleProxy>) -> (r: Vec<usize>)
    ensures
        r@ == positions_where(pooled@.len(), stale_at(settings(pooled@), settings(configured@))),
{
    let ghost keep = stale_at(settings(pooled@), settings(configured@));
    let mut out: Vec<usize> = Vec::new();
    let mut i: usize = 0;
    while i < pooled.len()
        invariant
            i <= pooled@.len(),
            keep == stale_at(settings(pooled@), settings(configured@)),
            out@ == positions_where(i as nat, keep),
        decreases pooled@.len() - i,
    {
        let used = holds_setting(configured, configured.len(), &pooled[i]);
        proof {
            assert(settings(configured@).take(configured@.len() as int) =~= settings(configured@));
            assert(settings(pooled@)[i as int] == pooled@[i as int]@);
        }
        if !used {
            out.push(i);
        }
        i = i + 1;
    }
    out
}

/// The positions, ascending, of the configured settings that need a new
/// client: each setting that no pooled client serves, at its first
/// occurrence.
pub fn missing_clients(configured: &Vec<SingleProxy>, pooled: &Vec<SingleProxy>) -> (r: Vec<usize>)
    ensures
        r@ == positions_where(configured@.len(), missing_at(settings(configured@), settings(pooled@))),
{
    let ghost keep = missing_at(settings(configured@), settings(pooled@));
    let mut out: Vec<usize> = Vec::new();
    let mut j: usize = 0;
    while j < configured.len()
        invariant
            j <= configured@.len(),
            keep == missing_at(settings(configured@), settings(pooled@)),
            out@ == positions_where(j as nat, keep),
        decreases configured@.len() - j,
    {
        let served = holds_setting(pooled, pooled.len(), &configured[j]);
        let earlier = holds_setting(configured, j, &configured[j]);
        proof {
            assert(settings(pooled@).take(pooled@.len() as int) =~= settings(pooled@));
            assert(settings(configured@).take(j as int) =~= settings(configured@).take(j as int));
            assert(settings(configured@)[j as int] == configured@[j as int]@);
        }
        if !served && !earlier {
            out.push(j);
        }
        j = j + 1;
    }
    out
}

/// What `positions_where` holds: ascending positions below `n`, exactly
/// those at which `keep` holds.
pub proof fn lemma_positions_where(n: nat, keep: spec_fn(int) -> bool)
    requires
        n <= usize::MAX,
    ensures
        forall|k: int|
            0 <= k < positions_where(n, keep).len() ==> #[trigger] positions_where(n, keep)[k]
                < n,
        forall|a: int, b: int|
            0 <= a < b < positions_where(n, keep).len() ==> #[trigger] positions_where(n, keep)[a]
                < #[trigger] positions_where(n, keep)[b],
        forall|i: int|
            0 <= i < n ==> (positions_where(n, keep).contains(i as usize) <==> #[trigger] keep(i)),
    decreases n,
{
    if n > 0 {
        lemma_positions_where((n - 1) as nat, keep);
        let rest = positions_where((n - 1) as nat, keep);
        let all = positions_where(n, keep);
        let last = (n - 1) as usize;
        assert forall|a: int, b: int| 0 <= a < b < all.len() implies #[trigger] all[a]
            < #[trigger] all[b] by {
            if b < rest.len() {
                assert(all[a] == rest[a] && all[b] == rest[b]);
            } else {
                assert(all[a] == rest[a]);
                assert(rest[a] < n - 1);
            }
        }
        assert forall|i: int| 0 <= i < n implies (all.contains(i as usize) <==> #[trigger] keep(
            i,
        )) by {
            let iu = i as usize;
            if i < n - 1 {
                if rest.contains(iu) {
                    let k = choose|k: int| 0 <= k < rest.len() && rest[k] == iu;
                    assert(all[k] == iu);
                }
                if all.contains(iu) {
                    let k = choose|k: int| 0 <= k < all.len() && all[k] == iu;
                    if k < rest.len() {
                        assert(rest[k] == iu);
                    } else {
                        assert(all[k] == last);
                    }
                }
            } else {
                if keep(i) {
                    assert(all[rest.len() as int] == iu);
                } else {
                    if all.contains(iu) {
                        let k = choose|k: int| 0 <= k < all.len() && all[k] == iu;
                        assert(rest[k] == iu);
                        assert(rest[k] < n - 1);
                    }
                }
            }
        }
    }
}

/// After an update the pool serves exactly the configured settings: a
/// setting is served by a client that stays or by a new one exactly when a
/// configured proxy uses it, and no setting gets two new clients.
pub proof fn lemma_pool_update(
    pooled: Seq<ProxySetting>,
    configured: Seq<ProxySetting>,
    s: ProxySetting,
)
    ensures
        ((exists|i: int|
            0 <= i < pooled.len() && !is_stale(pooled, configured, i) && #[trigger] pooled[i] == s)
            || (exists|j: int|
            0 <= j < configured.len() && is_missing(configured, pooled, j) && #[trigger] configured[j]
                == s)) <==> configured.contains(s),
        forall|a: int, b: int|
            0 <= a < b < configured.len() && is_missing(configured, pooled, a) && is_missing(
                configured,
                pooled,
                b,
            ) ==> #[trigger] configured[a] != #[trigger] configured[b],
{
    if configured.contains(s) {
        if pooled.contains(s) {
            let i = choose|i: int| 0 <= i < pooled.len() && pooled[i] == s;
            assert(!is_stale(pooled, configured, i));
        } else {
            let j = lemma_first_occurrence(configured, s);
            assert(is_missing(configured, pooled, j));
        }
    }
    assert forall|a: int, b: int|
        0 <= a < b < configured.len() && is_missing(configured, pooled, a) && is_missing(
            configured,
            pooled,
            b,
        ) implies #[trigger] configured[a] != #[trigger] configured[b] by {
        if configured[a] == configured[b] {
            assert(configured.take(b)[a] == configured[a]);
        }
    }
}

/// A setting that occurs in `ps` has a first occurrence.
proof fn lemma_first_occurrence(ps: Seq<ProxySetting>, s: ProxySetting) -> (j: int)
    requires
        ps.contains(s),
    ensures
        0 <= j < ps.len(),
        ps[j] == s,
        !ps.take(j).contains(s),
    decreases ps.len(),
{
    if ps[0] == s {
        assert(ps.take(0) =~= Seq::<ProxySetting>::empty());
        0
    } else {
        let k = choose|k: int| 0 <= k < ps.len() && ps[k] == s;
        assert(ps.skip(1)[k - 1] == s);
        let j = lemma_first_occurrence(ps.skip(1), s);
        assert forall|m: int| 0 <= m < j + 1 implies #[trigger] ps.take(j + 1)[m] != s by {
            if m > 0 {
                assert(ps.take(j + 1)[m] == ps.skip(1).take(j)[m - 1]);
            }
        }
        j + 1
    }
}

} // verus!
