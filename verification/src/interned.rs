//! Strings that are either literals of the program (`Str::Static`) or
//! shared, reference-counted text (`Str::Counted`, an `ArcStr`).  Both
//! compare, order and hash by their characters.
use crate::text::str_eq;
use std::sync::Arc;
use vstd::prelude::*;
use vstd::string::{StringExecFns, StringSliceAdditionalSpecFns};
use vstd::utf8::encode_utf8;

verus! {

// ---------------------------------------------------------------------------
// ArcStr
// ---------------------------------------------------------------------------

/// Shared text: cloning it adds a reference to the same characters.
#[derive(Debug)]
pub struct ArcStr {
    inner: Arc<String>,
}

impl View for ArcStr {
    type V = Seq<char>;

    closed spec fn view(&self) -> Seq<char> {
        (*self.inner)@
    }
}

/// The number of handles to the text, through `Arc::strong_count`.
///
/// Trusted: the count includes the handle it is asked through, so it is at
/// least one; how many others exist is not stated.
#[verifier::external_body]
fn strong_count(a: &Arc<String>) -> (r: usize)
    ensures
        r >= 1,
{
    Arc::strong_count(a)
}

impl ArcStr {
    pub fn new(s: &str) -> (r: ArcStr)
        ensures
            r@ == s@,
    {
        ArcStr { inner: Arc::new(String::from_str(s)) }
    }

    pub fn as_str(&self) -> (r: &str)
        ensures
            r@ == self@,
    {
        (*self.inner).as_str()
    }

    pub fn as_bytes(&self) -> (r: &[u8])
        ensures
            r@ == encode_utf8(self@),
    {
        self.as_str().as_bytes()
    }

    /// The length in bytes.
    pub fn len(&self) -> (r: usize)
        ensures
            r == encode_utf8(self@).len(),
    {
        self.as_bytes().len()
    }

    pub fn is_empty(&self) -> (r: bool)
        ensures
            r == (self@.len() == 0),
    {
        self.as_str().is_empty()
    }

    /// How many handles share the text (at least this one).
    pub fn ref_count(&self) -> (r: usize)
        ensures
            r >= 1,
    {
        strong_count(&self.inner)
    }

    /// Whether the two handles share one allocation.
    pub fn ptr_eq(&self, other: &ArcStr) -> (r: bool)
        ensures
            r ==> self@ == other@,
    {
        same_allocation(&self.inner, &other.inner)
    }
}

/// Whether two handles point to one allocation, through `Arc::ptr_eq`.
///
/// Trusted: one allocation holds one value, so `true` means the values are
/// equal; which allocation a handle points to is not stated.
#[verifier::external_body]
fn same_allocation(a: &Arc<String>, b: &Arc<String>) -> (r: bool)
    ensures
        r ==> *a == *b,
{
    Arc::ptr_eq(a, b)
}

/// Another handle to the same text, through `Arc::clone`.
///
/// Trusted: the clone points to the same allocation, so it holds the same
/// value.
#[verifier::external_body]
fn arc_clone(a: &Arc<String>) -> (r: Arc<String>)
    ensures
        r == *a,
{
    Arc::clone(a)
}

impl Clone for ArcStr {
    /// Another handle to the same text.
    fn clone(&self) -> (r: ArcStr)
        ensures
            r == *self,
            r@ == self@,
    {
        ArcStr { inner: arc_clone(&self.inner) }
    }
}

/// Shared texts, each held once: interning a text that the pool holds gives
/// another handle to the held one, and a new text is added.
pub struct StrPool {
    entries: Vec<ArcStr>,
}

impl StrPool {
    /// The texts held, in the order they were added.
    pub closed spec fn texts(&self) -> Seq<Seq<char>> {
        self.entries@.map_values(|a: ArcStr| a@)
    }

    /// No text is held twice.
    pub closed spec fn wf(&self) -> bool {
        forall|i: int, j: int|
            0 <= i < j < self.entries@.len() ==> #[trigger] self.entries@[i]@
                != #[trigger] self.entries@[j]@
    }

    /// An empty pool.
    pub fn new() -> (r: StrPool)
        ensures
            r.wf(),
            r.texts() == Seq::<Seq<char>>::empty(),
    {
        let r = StrPool { entries: Vec::new() };
        assert(r.texts() =~= Seq::<Seq<char>>::empty());
        r
    }

    /// How many texts are held.
    pub fn len(&self) -> (r: usize)
        ensures
            r == self.texts().len(),
    {
        self.entries.len()
    }

    /// A handle to `s`: the held one's when the pool holds `s`, else a new
    /// one, which the pool then holds too.
    pub fn intern(&mut self, s: &str) -> (r: ArcStr)
        requires
            old(self).wf(),
        ensures
            final(self).wf(),
            r@ == s@,
            old(self).texts().contains(s@) ==> final(self).texts() == old(self).texts(),
            !old(self).texts().contains(s@) ==> final(self).texts() == old(self).texts().push(
                s@,
            ),
    {
        let n = self.entries.len();
        let mut i: usize = 0;
        while i < n
            invariant
                n == self.entries@.len(),
                i <= n,
                self.wf(),
                *self == *old(self),
                forall|k: int| 0 <= k < i ==> self.entries@[k]@ != s@,
            decreases n - i,
        {
            if str_eq(self.entries[i].as_str(), s) {
                proof {
                    assert(self.texts()[i as int] == s@);
                }
                return self.entries[i].clone();
            }
            i = i + 1;
        }
        proof {
            assert forall|k: int| 0 <= k < self.texts().len() implies #[trigger] self.texts()[k]
                != s@ by {
                assert(self.texts()[k] == self.entries@[k]@);
            }
        }
        let a = ArcStr::new(s);
        let held = a.clone();
        let ghost before = self.entries@;
        self.entries.push(held);
        proof {
            assert(self.texts() =~= before.map_values(|a: ArcStr| a@).push(s@));
            assert forall|x: int, y: int| 0 <= x < y < self.entries@.len() implies #[trigger] self.entries@[x]@
                != #[trigger] self.entries@[y]@ by {
                if y == n {
                    assert(before.map_values(|a: ArcStr| a@)[x] == before[x]@);
                }
            }
        }
        a
    }

    /// Drops the texts that only the pool still holds a handle to, keeping
    /// the others in their order: with `counts` the number of handles to
    /// each held text (the pool's own included), those counted more than
    /// once stay.
    pub fn prune(&mut self)
        requires
            old(self).wf(),
        ensures
            final(self).wf(),
            exists|counts: Seq<usize>|
                counts.len() == old(self).texts().len() && final(self).texts() == shared_only(
                    old(self).texts(),
                    counts,
                ),
    {
        let mut counts: Vec<usize> = Vec::new();
        let n = self.entries.len();
        let mut i: usize = 0;
        while i < n
            invariant
                n == self.entries@.len(),
                i <= n,
                counts@.len() == i,
            decreases n - i,
        {
            counts.push(strong_count(&self.entries[i].inner));
            i = i + 1;
        }
        let ghost old_entries = self.entries@;
        let mut entries: Vec<ArcStr> = Vec::new();
        core::mem::swap(&mut entries, &mut self.entries);
        assert(entries@ == old_entries);
        let kept = retain_shared(entries, &counts);
        self.entries = kept;
        proof {
            lemma_shared_only_views(old_entries, counts@);
            lemma_shared_only_distinct(old_entries.map_values(|a: ArcStr| a@), counts@);
            let t = self.texts();
            assert forall|x: int, y: int| 0 <= x < y < self.entries@.len() implies #[trigger] self.entries@[x]@
                != #[trigger] self.entries@[y]@ by {
                assert(t[x] == self.entries@[x]@);
                assert(t[y] == self.entries@[y]@);
            }
            assert(old(self).texts() == old_entries.map_values(|a: ArcStr| a@));
            assert(self.texts() == shared_only(old(self).texts(), counts@));
        }
    }
}

/// The items counted more than once, in their order.
pub open spec fn shared_only<A>(items: Seq<A>, counts: Seq<usize>) -> Seq<A>
    decreases items.len(),
{
    if items.len() == 0 {
        Seq::empty()
    } else {
        let rest = shared_only(items.drop_last(), counts.take(items.len() - 1));
        if counts[items.len() - 1] > 1 {
            rest.push(items.last())
        } else {
            rest
        }
    }
}

/// Keeps the entries counted more than once, in their order.
pub fn retain_shared(entries: Vec<ArcStr>, counts: &Vec<usize>) -> (r: Vec<ArcStr>)
    requires
        counts@.len() == entries@.len(),
    ensures
        r@ == shared_only(entries@, counts@),
{
    let mut kept: Vec<ArcStr> = Vec::new();
    let mut i: usize = 0;
    while i < entries.len()
        invariant
            i <= entries@.len(),
            counts@.len() == entries@.len(),
            kept@ == shared_only(entries@.take(i as int), counts@.take(i as int)),
        decreases entries.len() - i,
    {
        proof {
            let e = entries@.take(i + 1);
            assert(e.drop_last() =~= entries@.take(i as int));
            assert(counts@.take(i + 1).take(i as int) =~= counts@.take(i as int));
            assert(e.last() == entries@[i as int]);
        }
        if counts[i] > 1 {
            kept.push(entries[i].clone());
        }
        i = i + 1;
    }
    assert(entries@.take(entries@.len() as int) =~= entries@);
    assert(counts@.take(counts@.len() as int) =~= counts@);
    kept
}

/// Keeping items and then viewing them is viewing them and then keeping.
proof fn lemma_shared_only_views(items: Seq<ArcStr>, counts: Seq<usize>)
    requires
        counts.len() == items.len(),
    ensures
        shared_only(items, counts).map_values(|a: ArcStr| a@) == shared_only(
            items.map_values(|a: ArcStr| a@),
            counts,
        ),
    decreases items.len(),
{
    let v = items.map_values(|a: ArcStr| a@);
    if items.len() > 0 {
        let c = counts.take(items.len() - 1);
        lemma_shared_only_views(items.drop_last(), c);
        assert(v.drop_last() =~= items.drop_last().map_values(|a: ArcStr| a@));
        let r = shared_only(items.drop_last(), c);
        assert(r.push(items.last()).map_values(|a: ArcStr| a@) =~= r.map_values(|a: ArcStr| a@).push(
            items.last()@,
        ));
    } else {
        assert(shared_only(items, counts).map_values(|a: ArcStr| a@) =~= Seq::<Seq<char>>::empty());
    }
}

/// What is kept is among the items.
proof fn lemma_shared_only_from<A>(items: Seq<A>, counts: Seq<usize>, k: int)
    requires
        counts.len() == items.len(),
        0 <= k < shared_only(items, counts).len(),
    ensures
        exists|j: int| 0 <= j < items.len() && items[j] == shared_only(items, counts)[k],
    decreases items.len(),
{
    let c = counts.take(items.len() - 1);
    let rest = shared_only(items.drop_last(), c);
    if k < rest.len() {
        lemma_shared_only_from(items.drop_last(), c, k);
        let j = choose|j: int| 0 <= j < items.len() - 1 && items.drop_last()[j] == rest[k];
        assert(items[j] == rest[k]);
    } else {
        assert(items[items.len() - 1] == shared_only(items, counts)[k]);
    }
}

/// Keeping some of distinct items keeps them distinct.
proof fn lemma_shared_only_distinct<A>(items: Seq<A>, counts: Seq<usize>)
    requires
        counts.len() == items.len(),
        forall|i: int, j: int| 0 <= i < j < items.len() ==> items[i] != items[j],
    ensures
        forall|i: int, j: int|
            0 <= i < j < shared_only(items, counts).len() ==> shared_only(items, counts)[i]
                != shared_only(items, counts)[j],
    decreases items.len(),
{
    if items.len() > 0 {
        let d = items.drop_last();
        let c = counts.take(items.len() - 1);
        lemma_shared_only_distinct(d, c);
        let rest = shared_only(d, c);
        let r = shared_only(items, counts);
        assert forall|i: int, j: int| 0 <= i < j < r.len() implies r[i] != r[j] by {
            if j == rest.len() {
                lemma_shared_only_from(d, c, i);
                let m = choose|m: int| 0 <= m < d.len() && d[m] == rest[i];
                assert(items[m] != items[items.len() - 1]);
            }
        }
    }
}

impl PartialEq for ArcStr {
    fn eq(&self, other: &Self) -> (r: bool) {
        str_eq(self.as_str(), other.as_str())
    }
}

impl vstd::std_specs::cmp::PartialEqSpecImpl for ArcStr {
    open spec fn obeys_eq_spec() -> bool {
        true
    }

    open spec fn eq_spec(&self, other: &ArcStr) -> bool {
        self@ == other@
    }
}

impl Eq for ArcStr {
}

/// `Box<str>::from(&str)`: a boxed copy of the text.
#[verifier::external_body]
fn boxed_text(s: &str) -> (r: Box<str>)
    ensures
        r@ == s@,
{
    Box::from(s)
}

impl<'a> From<&'a str> for ArcStr {
    fn from(s: &'a str) -> (r: ArcStr)
        ensures
            r@ == s@,
    {
        ArcStr::new(s)
    }
}

/// A conversion into shared text makes a new handle, which no spec value
/// names in advance: `from` itself states the text it holds.
impl<'a> vstd::std_specs::convert::FromSpecImpl<&'a str> for ArcStr {
    open spec fn obeys_from_spec() -> bool {
        false
    }

    closed spec fn from_spec(s: &'a str) -> ArcStr {
        choose|r: ArcStr| r@ == s@
    }
}

impl<'a> From<&'a String> for ArcStr {
    fn from(s: &'a String) -> (r: ArcStr)
        ensures
            r@ == s@,
    {
        ArcStr::new(s.as_str())
    }
}

impl<'a> vstd::std_specs::convert::FromSpecImpl<&'a String> for ArcStr {
    open spec fn obeys_from_spec() -> bool {
        false
    }

    closed spec fn from_spec(s: &'a String) -> ArcStr {
        choose|r: ArcStr| r@ == s@
    }
}

impl From<String> for ArcStr {
    fn from(s: String) -> (r: ArcStr)
        ensures
            r@ == s@,
    {
        ArcStr::new(s.as_str())
    }
}

impl vstd::std_specs::convert::FromSpecImpl<String> for ArcStr {
    open spec fn obeys_from_spec() -> bool {
        false
    }

    closed spec fn from_spec(s: String) -> ArcStr {
        choose|r: ArcStr| r@ == s@
    }
}

impl From<ArcStr> for String {
    fn from(s: ArcStr) -> (r: String)
        ensures
            r@ == s@,
    {
        String::from_str(s.as_str())
    }
}

impl vstd::std_specs::convert::FromSpecImpl<ArcStr> for String {
    open spec fn obeys_from_spec() -> bool {
        false
    }

    closed spec fn from_spec(s: ArcStr) -> String {
        choose|r: String| r@ == s@
    }
}

impl From<ArcStr> for Box<str> {
    fn from(s: ArcStr) -> (r: Box<str>)
        ensures
            r@ == s@,
    {
        boxed_text(s.as_str())
    }
}

impl vstd::std_specs::convert::FromSpecImpl<ArcStr> for Box<str> {
    open spec fn obeys_from_spec() -> bool {
        false
    }

    closed spec fn from_spec(s: ArcStr) -> Box<str> {
        choose|r: Box<str>| r@ == s@
    }
}

// ---------------------------------------------------------------------------
// Str
// ---------------------------------------------------------------------------

/// A literal of the program, or shared text.
#[derive(Debug)]
pub enum Str {
    Static(&'static str),
    Counted(ArcStr),
}

impl Clone for Str {
    /// The same literal, or another handle to the same shared text.
    fn clone(&self) -> (r: Str)
        ensures
            r@ == self@,
            (r is Static) == (*self is Static),
            *self matches Str::Static(s) ==> r == Str::Static(s),
    {
        match self {
            Str::Static(s) => Str::Static(s),
            Str::Counted(a) => Str::Counted(a.clone()),
        }
    }
}

impl View for Str {
    type V = Seq<char>;

    open spec fn view(&self) -> Seq<char> {
        match self {
            Str::Static(s) => s@,
            Str::Counted(a) => a@,
        }
    }
}

impl Str {
    pub fn from_static(s: &'static str) -> (r: Str)
        ensures
            r == Str::Static(s),
            r@ == s@,
    {
        Str::Static(s)
    }

    pub fn new(s: &str) -> (r: Str)
        ensures
            r is Counted,
            r@ == s@,
    {
        Str::Counted(ArcStr::new(s))
    }

    pub fn is_static(&self) -> (r: bool)
        ensures
            r == (*self is Static),
    {
        match self {
            Str::Static(_) => true,
            Str::Counted(_) => false,
        }
    }

    /// `None` for a literal; the number of handles for shared text.
    pub fn ref_count(&self) -> (r: Option<usize>)
        ensures
            match self {
                Str::Static(_) => r is None,
                Str::Counted(_) => r matches Some(n) && n >= 1,
            },
    {
        match self {
            Str::Static(_) => None,
            Str::Counted(arc) => Some(arc.ref_count()),
        }
    }

    pub fn as_static(&self) -> (r: Option<&'static str>)
        ensures
            match self {
                Str::Static(s) => r == Some(*s),
                Str::Counted(_) => r is None,
            },
    {
        match self {
            Str::Static(s) => Some(*s),
            Str::Counted(_) => None,
        }
    }

    pub fn as_arc_str(&self) -> (r: Option<&ArcStr>)
        ensures
            match self {
                Str::Static(_) => r is None,
                Str::Counted(a) => r == Some(a),
            },
    {
        match self {
            Str::Static(_) => None,
            Str::Counted(arc) => Some(arc),
        }
    }

    pub fn into_arc_str(self) -> (r: Option<ArcStr>)
        ensures
            match self {
                Str::Static(_) => r is None,
                Str::Counted(a) => r == Some(a),
            },
    {
        match self {
            Str::Static(_) => None,
            Str::Counted(arc) => Some(arc),
        }
    }

    pub fn as_str(&self) -> (r: &str)
        ensures
            r@ == self@,
    {
        match self {
            Str::Static(s) => s,
            Str::Counted(arc) => arc.as_str(),
        }
    }

    pub fn as_bytes(&self) -> (r: &[u8])
        ensures
            r@ == encode_utf8(self@),
    {
        self.as_str().as_bytes()
    }

    /// The length in bytes.
    pub fn len(&self) -> (r: usize)
        ensures
            r == encode_utf8(self@).len(),
    {
        self.as_bytes().len()
    }

    pub fn is_empty(&self) -> (r: bool)
        ensures
            r == (self@.len() == 0),
    {
        self.as_str().is_empty()
    }
}

impl From<&'static str> for Str {
    fn from(s: &'static str) -> (r: Str) {
        Str::Static(s)
    }
}

impl vstd::std_specs::convert::FromSpecImpl<&'static str> for Str {
    open spec fn obeys_from_spec() -> bool {
        true
    }

    open spec fn from_spec(s: &'static str) -> Str {
        Str::Static(s)
    }
}

impl From<ArcStr> for Str {
    fn from(arc: ArcStr) -> (r: Str) {
        Str::Counted(arc)
    }
}

impl vstd::std_specs::convert::FromSpecImpl<ArcStr> for Str {
    open spec fn obeys_from_spec() -> bool {
        true
    }

    open spec fn from_spec(arc: ArcStr) -> Str {
        Str::Counted(arc)
    }
}

impl From<String> for Str {
    fn from(s: String) -> (r: Str)
        ensures
            r is Counted,
            r@ == s@,
    {
        Str::Counted(ArcStr::new(s.as_str()))
    }
}

impl vstd::std_specs::convert::FromSpecImpl<String> for Str {
    open spec fn obeys_from_spec() -> bool {
        false
    }

    closed spec fn from_spec(s: String) -> Str {
        choose|r: Str| r is Counted && r@ == s@
    }
}

impl<'a> From<&'a String> for Str {
    fn from(s: &'a String) -> (r: Str)
        ensures
            r is Counted,
            r@ == s@,
    {
        Str::Counted(ArcStr::new(s.as_str()))
    }
}

impl<'a> vstd::std_specs::convert::FromSpecImpl<&'a String> for Str {
    open spec fn obeys_from_spec() -> bool {
        false
    }

    closed spec fn from_spec(s: &'a String) -> Str {
        choose|r: Str| r is Counted && r@ == s@
    }
}

impl From<Str> for String {
    fn from(s: Str) -> (r: String)
        ensures
            r@ == s@,
    {
        String::from_str(s.as_str())
    }
}

impl vstd::std_specs::convert::FromSpecImpl<Str> for String {
    open spec fn obeys_from_spec() -> bool {
        false
    }

    closed spec fn from_spec(s: Str) -> String {
        choose|r: String| r@ == s@
    }
}

impl From<Str> for Box<str> {
    fn from(s: Str) -> (r: Box<str>)
        ensures
            r@ == s@,
    {
        boxed_text(s.as_str())
    }
}

impl vstd::std_specs::convert::FromSpecImpl<Str> for Box<str> {
    open spec fn obeys_from_spec() -> bool {
        false
    }

    closed spec fn from_spec(s: Str) -> Box<str> {
        choose|r: Box<str>| r@ == s@
    }
}

impl PartialEq<ArcStr> for Str {
    fn eq(&self, other: &ArcStr) -> (r: bool) {
        match self {
            Str::Counted(arc) => arc == other,
            Str::Static(s) => str_eq(s, other.as_str()),
        }
    }
}

impl vstd::std_specs::cmp::PartialEqSpecImpl<ArcStr> for Str {
    open spec fn obeys_eq_spec() -> bool {
        true
    }

    open spec fn eq_spec(&self, other: &ArcStr) -> bool {
        self@ == other@
    }
}

impl PartialEq<Str> for ArcStr {
    fn eq(&self, other: &Str) -> (r: bool) {
        other == self
    }
}

impl vstd::std_specs::cmp::PartialEqSpecImpl<Str> for ArcStr {
    open spec fn obeys_eq_spec() -> bool {
        true
    }

    open spec fn eq_spec(&self, other: &Str) -> bool {
        self@ == other@
    }
}

impl PartialEq for Str {
    fn eq(&self, other: &Self) -> (r: bool) {
        str_eq(self.as_str(), other.as_str())
    }
}

impl vstd::std_specs::cmp::PartialEqSpecImpl for Str {
    open spec fn obeys_eq_spec() -> bool {
        true
    }

    open spec fn eq_spec(&self, other: &Str) -> bool {
        self@ == other@
    }
}

impl Eq for Str {
}

impl<'a> PartialEq<&'a str> for Str {
    fn eq(&self, other: &&'a str) -> (r: bool) {
        str_eq(self.as_str(), *other)
    }
}

impl<'a> vstd::std_specs::cmp::PartialEqSpecImpl<&'a str> for Str {
    open spec fn obeys_eq_spec() -> bool {
        true
    }

    open spec fn eq_spec(&self, other: &&'a str) -> bool {
        self@ == (*other)@
    }
}

impl core::ops::Deref for Str {
    type Target = str;

    fn deref(&self) -> (r: &str)
        ensures
            r@ == self@,
    {
        self.as_str()
    }
}

/// Feeds the characters of `s` to a hasher, through `str`'s `Hash`.
///
/// Trusted: nothing is stated; the hash depends only on the characters.
#[verifier::external_body]
fn hash_str<H: core::hash::Hasher>(s: &str, state: &mut H) {
    core::hash::Hash::hash(s, state)
}

impl core::hash::Hash for Str {
    fn hash<H: core::hash::Hasher>(&self, state: &mut H) {
        hash_str(self.as_str(), state)
    }
}

/// The lexicographic comparison of two byte strings, as `[u8]` orders them:
/// -1 when `a` comes first, 0 when they are equal, 1 when `b` comes first.
pub open spec fn lex_sign(a: Seq<u8>, b: Seq<u8>) -> int
    decreases a.len(),
{
    if a.len() == 0 {
        if b.len() == 0 {
            0
        } else {
            -1
        }
    } else if b.len() == 0 {
        1
    } else if a[0] < b[0] {
        -1
    } else if a[0] > b[0] {
        1
    } else {
        lex_sign(a.drop_first(), b.drop_first())
    }
}

/// The ordering that a comparison sign stands for.
pub open spec fn sign_order(sign: int) -> core::cmp::Ordering {
    if sign < 0 {
        core::cmp::Ordering::Less
    } else if sign == 0 {
        core::cmp::Ordering::Equal
    } else {
        core::cmp::Ordering::Greater
    }
}

/// The length of the longest common prefix of two byte strings.
fn common_prefix_len(x: &[u8], y: &[u8]) -> (i: usize)
    ensures
        i <= x@.len(),
        i <= y@.len(),
        forall|k: int| 0 <= k < i ==> x@[k] == y@[k],
        i < x@.len() && i < y@.len() ==> x@[i as int] != y@[i as int],
{
    let n = x.len();
    let m = y.len();
    let mut i: usize = 0;
    while i < n && i < m && x[i] == y[i]
        invariant
            i <= n,
            i <= m,
            n == x@.len(),
            m == y@.len(),
            forall|k: int| 0 <= k < i ==> x@[k] == y@[k],
        decreases n - i,
    {
        i = i + 1;
    }
    i
}

/// Byte strings that agree on their first `i` bytes compare as they differ
/// after them.
proof fn lemma_lex_sign_prefix(a: Seq<u8>, b: Seq<u8>, i: usize)
    requires
        i <= a.len(),
        i <= b.len(),
        forall|k: int| 0 <= k < i ==> a[k] == b[k],
        i < a.len() && i < b.len() ==> a[i as int] != b[i as int],
    ensures
        lex_sign(a, b) == (if i == a.len() {
            if i == b.len() {
                0
            } else {
                -1
            }
        } else if i == b.len() {
            1
        } else if a[i as int] < b[i as int] {
            -1
        } else {
            1
        }),
    decreases i,
{
    if i > 0 {
        let a1 = a.drop_first();
        let b1 = b.drop_first();
        assert forall|k: int| 0 <= k < i - 1 implies a1[k] == b1[k] by {
            assert(a[k + 1] == b[k + 1]);
        }
        lemma_lex_sign_prefix(a1, b1, (i - 1) as usize);
        assert(a[0] == b[0]);
    }
}

proof fn lemma_lex_sign_facts(a: Seq<u8>, b: Seq<u8>)
    ensures
        lex_sign(a, b) == -lex_sign(b, a),
        lex_sign(a, b) == 0 <==> a == b,
    decreases a.len(),
{
    if a.len() == 0 && b.len() == 0 {
        assert(a =~= b);
    }
    if a.len() > 0 && b.len() > 0 && a[0] == b[0] {
        lemma_lex_sign_facts(a.drop_first(), b.drop_first());
        if a.drop_first() == b.drop_first() {
            assert(a =~= b) by {
                assert forall|k: int| 0 <= k < a.len() implies a[k] == b[k] by {
                    if k > 0 {
                        assert(a[k] == a.drop_first()[k - 1]);
                        assert(b[k] == b.drop_first()[k - 1]);
                    }
                }
            }
        }
    }
}

proof fn lemma_lex_sign_transitive(a: Seq<u8>, b: Seq<u8>, c: Seq<u8>)
    requires
        lex_sign(a, b) < 0,
        lex_sign(b, c) < 0,
    ensures
        lex_sign(a, c) < 0,
    decreases a.len(),
{
    if a.len() > 0 && b.len() > 0 && c.len() > 0 && a[0] == b[0] && b[0] == c[0] {
        lemma_lex_sign_transitive(a.drop_first(), b.drop_first(), c.drop_first());
    }
}

/// Texts are ordered by their UTF-8 bytes: comparing the other way round
/// gives the opposite answer, two texts compare equal exactly when they are
/// the same text, and the order is transitive.
pub proof fn lemma_text_order(a: Seq<char>, b: Seq<char>, c: Seq<char>)
    ensures
        lex_sign(encode_utf8(a), encode_utf8(b)) == -lex_sign(encode_utf8(b), encode_utf8(a)),
        lex_sign(encode_utf8(a), encode_utf8(b)) == 0 <==> a == b,
        lex_sign(encode_utf8(a), encode_utf8(b)) < 0 && lex_sign(encode_utf8(b), encode_utf8(c))
            < 0 ==> lex_sign(encode_utf8(a), encode_utf8(c)) < 0,
{
    lemma_lex_sign_facts(encode_utf8(a), encode_utf8(b));
    if encode_utf8(a) == encode_utf8(b) {
        vstd::utf8::encode_utf8_decode_utf8(a);
        vstd::utf8::encode_utf8_decode_utf8(b);
    }
    if lex_sign(encode_utf8(a), encode_utf8(b)) < 0 && lex_sign(encode_utf8(b), encode_utf8(c)) < 0 {
        lemma_lex_sign_transitive(encode_utf8(a), encode_utf8(b), encode_utf8(c));
    }
}

/// Compares two texts by their UTF-8 bytes, which orders them as `str` does.
fn compare_text(a: &str, b: &str) -> (r: core::cmp::Ordering)
    ensures
        r == sign_order(lex_sign(encode_utf8(a@), encode_utf8(b@))),
{
    let x = a.as_bytes();
    let y = b.as_bytes();
    let i = common_prefix_len(x, y);
    proof {
        lemma_lex_sign_prefix(x@, y@, i);
    }
    if i == x.len() {
        if i == y.len() {
            core::cmp::Ordering::Equal
        } else {
            core::cmp::Ordering::Less
        }
    } else if i == y.len() {
        core::cmp::Ordering::Greater
    } else if x[i] < y[i] {
        core::cmp::Ordering::Less
    } else {
        core::cmp::Ordering::Greater
    }
}

impl PartialOrd for Str {
    /// Orders by the UTF-8 bytes of the characters, as `str` does.
    fn partial_cmp(&self, other: &Self) -> (r: Option<core::cmp::Ordering>) {
        Some(compare_text(self.as_str(), other.as_str()))
    }
}

impl vstd::std_specs::cmp::PartialOrdSpecImpl for Str {
    open spec fn obeys_partial_cmp_spec() -> bool {
        true
    }

    open spec fn partial_cmp_spec(&self, other: &Str) -> Option<core::cmp::Ordering> {
        Some(sign_order(lex_sign(encode_utf8(self@), encode_utf8(other@))))
    }
}

impl Ord for Str {
    /// Orders by the text, through `str`'s `Ord`.
    ///
    /// Trusted: as std documents, strings are ordered lexicographically by
    /// their byte values.
    #[verifier::external_body]
    fn cmp(&self, other: &Self) -> (r: core::cmp::Ordering)
        ensures
            r == sign_order(lex_sign(encode_utf8(self@), encode_utf8(other@))),
    {
        self.as_str().cmp(other.as_str())
    }
}

impl Default for Str {
    fn default() -> (r: Str)
        ensures
            r is Static,
            r@.len() == 0,
    {
        proof {
            reveal_strlit("");
        }
        Str::Static("")
    }
}

} // verus!
