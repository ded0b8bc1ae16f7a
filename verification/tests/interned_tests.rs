use cursor_api::interned::{retain_shared, ArcStr, Str, StrPool};
use std::collections::hash_map::DefaultHasher;
use std::hash::{Hash, Hasher};
use std::borrow::Cow;

#[test]
fn test_method_shadowing() {
    let s1 = Str::from_static("hello");
    let s2 = Str::new("world");

    assert_eq!(s1.len(), 5);
    assert_eq!(s2.len(), 5);
    assert!(!s1.is_empty());
    assert_eq!(s1.as_bytes(), b"hello");
    assert_eq!(s1.as_str(), "hello");
}

#[test]
fn test_static_vs_counted() {
    let s1 = Str::from_static("hello");
    let s2 = Str::new("hello");

    assert!(s1.is_static());
    assert!(!s2.is_static());
    assert_eq!(s1.ref_count(), None);
    assert!(s2.ref_count().is_some());
    assert_eq!(s1, s2);
}

#[test]
fn test_default() {
    let s = Str::default();
    assert!(s.is_empty());
    assert!(s.is_static());
    assert_eq!(s.len(), 0);
}

#[test]
fn test_const_construction() {
    const GREETING: Str = Str::Static("Hello");
    static KEYWORDS: &[Str] = &[Str::Static("fn"), Str::Static("let"), Str::Static("match")];

    assert!(GREETING.is_static());
    assert_eq!(KEYWORDS.len(), 3);
    assert!(KEYWORDS[0].is_static());
}

#[test]
fn test_deref() {
    let s = Str::from_static("deref");

    assert!(s.starts_with("de"));
    assert!(s.contains("ref"));
    assert_eq!(s.to_uppercase(), "DEREF");
}

#[test]
fn test_ordering() {
    let mut strs = vec![Str::new("cherry"), Str::from_static("apple"), Str::new("banana")];

    strs.sort();

    assert_eq!(strs[0], "apple");
    assert_eq!(strs[1], "banana");
    assert_eq!(strs[2], "cherry");
}

#[test]
fn test_hash_consistency() {
    let s1 = Str::from_static("test");
    let s2 = Str::new("test");

    let mut h1 = DefaultHasher::new();
    let mut h2 = DefaultHasher::new();

    s1.hash(&mut h1);
    s2.hash(&mut h2);

    assert_eq!(h1.finish(), h2.finish());
}

#[test]
fn arc_str_test_empty_string() {
    let empty = ArcStr::new("");
    assert!(empty.is_empty());
    assert_eq!(empty.len(), 0);
    assert_eq!(empty.as_str(), "");
}

#[test]
fn str_accessors_by_variant() {
    let s = Str::from_static("lit");
    assert_eq!(s.as_static(), Some("lit"));
    assert!(s.as_arc_str().is_none());
    assert!(s.clone().into_arc_str().is_none());

    let c = Str::new("shared");
    assert_eq!(c.as_static(), None);
    assert_eq!(c.as_arc_str().map(|a| a.as_str()), Some("shared"));
    let arc = c.into_arc_str().unwrap();
    assert_eq!(arc.as_str(), "shared");
    assert!(arc.ref_count() >= 1);
}

#[test]
fn str_len_counts_bytes() {
    let s = Str::new("héllo");
    assert_eq!(s.len(), 6);
    assert_eq!(s.as_str(), "héllo");
    let from: Str = Str::from(ArcStr::new("x"));
    assert!(!from.is_static());
    let lit: Str = Str::from("y");
    assert!(lit.is_static());
}

#[test]
fn test_arcstr_conversions() {
    let arc = ArcStr::new("test");
    let count_before = arc.ref_count();

    // ArcStr -> Str
    let s: Str = arc.clone().into();
    assert!(!s.is_static());
    assert_eq!(s.ref_count(), Some(count_before + 1));

    // Str -> Option<ArcStr>
    let arc_back = s.into_arc_str();
    assert!(arc_back.is_some());
    assert_eq!(arc_back.unwrap(), arc);
}

#[test]
fn test_arcstr_equality() {
    let arc = ArcStr::new("same");
    let s1 = Str::from(arc.clone());
    let s2 = Str::from_static("same");

    // Counted vs ArcStr
    assert_eq!(s1, arc);

    // Static vs ArcStr
    assert_eq!(s2, arc);
}

#[test]
fn test_conversions() {
    // From implementations
    let s1: Str = "literal".into();
    let s2: Str = String::from("owned").into();
    let s3: Str = ArcStr::new("arc").into();

    assert!(s1.is_static());
    assert!(!s2.is_static());
    assert!(!s3.is_static());

    // Into implementations
    let string: String = s2.clone().into();
    assert_eq!(string, "owned");

    let boxed: Box<str> = s3.into();
    assert_eq!(&*boxed, "arc");
}

#[test]
fn arc_str_conversions_keep_text() {
    let a = ArcStr::from("from_str");
    let b = ArcStr::from(String::from("from_string"));
    let c = ArcStr::from(&String::from("from_ref"));
    assert_eq!(a.as_str(), "from_str");
    assert_eq!(b.as_str(), "from_string");
    assert_eq!(c.as_str(), "from_ref");
    let back: String = a.clone().into();
    assert_eq!(back, "from_str");
    let boxed: Box<str> = b.into();
    assert_eq!(&*boxed, "from_string");
    assert!(ArcStr::new("x") == Str::from_static("x"));
    assert!(Str::new("x") != ArcStr::new("y"));
}

#[test]
fn str_partial_order_matches_str() {
    let texts = ["", "a", "ab", "b", "é", "e\u{301}", "日本", "日", "z", "Z", "🦀", "\u{FFFF}"];
    for x in texts {
        for y in texts {
            let a = Str::new(x);
            let b = Str::from_static(y);
            assert_eq!(a.partial_cmp(&b), Some(x.cmp(y)));
            assert_eq!(a.cmp(&b), x.cmp(y));
        }
    }
}

#[test]
fn arc_str_test_basic_functionality() {
    let mut pool = StrPool::new();
    let s1 = pool.intern("hello");
    let s2 = pool.intern("hello");
    let s3 = pool.intern("world");

    assert_eq!(s1, s2);
    assert_ne!(s1, s3);
    assert!(s1.ptr_eq(&s2));
    assert!(!s1.ptr_eq(&s3));
    assert_eq!(s1.as_str(), "hello");
    assert_eq!(s1.len(), 5);
    assert!(!s1.is_empty());
    assert_eq!(pool.len(), 2);
}

#[test]
fn arc_str_test_reference_counting() {
    let s1 = ArcStr::new("test");
    assert_eq!(s1.ref_count(), 1);

    let s2 = s1.clone();
    assert_eq!(s1.ref_count(), 2);
    assert_eq!(s2.ref_count(), 2);
    assert!(s1.ptr_eq(&s2));

    drop(s2);
    assert_eq!(s1.ref_count(), 1);
    drop(s1);

    // A pool drops a text once only the pool holds it.
    let mut pool = StrPool::new();
    let p = pool.intern("test");
    assert_eq!(pool.len(), 1);
    pool.prune();
    assert_eq!(pool.len(), 1);
    drop(p);
    pool.prune();
    assert_eq!(pool.len(), 0);
}

#[test]
fn arc_str_test_pool_reuse() {
    let mut pool = StrPool::new();
    let s1 = pool.intern("reuse_test");
    let s2 = pool.intern("reuse_test");

    assert!(s1.ptr_eq(&s2));
    // Two handles given out, and the pool's own.
    assert_eq!(s1.ref_count(), 3);
    assert_eq!(pool.len(), 1);
}

#[test]
fn arc_str_test_from_implementations() {

    let s1 = ArcStr::from("from_str");
    let s2 = ArcStr::from(String::from("from_string"));
    let s3 = ArcStr::from(Cow::Borrowed("from_cow").as_ref());

    assert_eq!(s1.as_str(), "from_str");
    assert_eq!(s2.as_str(), "from_string");
    assert_eq!(s3.as_str(), "from_cow");
}

#[test]
fn arc_test_basic_functionality() {
    let mut pool = StrPool::new();
    let s1 = pool.intern("hello");
    let s2 = pool.intern("hello");
    let s3 = pool.intern("world");

    assert_eq!(s1, s2);
    assert_ne!(s1, s3);
    assert!(s1.ptr_eq(&s2));
    assert!(!s1.ptr_eq(&s3));
    assert_eq!(s1.as_str(), "hello");
    assert_eq!(s1.len(), 5);
    assert!(!s1.is_empty());
    assert_eq!(pool.len(), 2);
}

#[test]
fn arc_test_pool_reuse() {
    let mut pool = StrPool::new();
    let s1 = pool.intern("reuse_test");
    let s2 = pool.intern("reuse_test");

    assert!(s1.ptr_eq(&s2));
    assert_eq!(s1.ref_count(), 3);
    assert_eq!(pool.len(), 1);
}

#[test]
fn arc_test_from_implementations() {

    let mut pool = StrPool::new();
    let s1 = ArcStr::from("from_str");
    let s2 = ArcStr::from(String::from("from_string"));
    let s3 = ArcStr::from(Cow::Borrowed("from_cow").as_ref());
    let owned: Cow<str> = Cow::Owned(String::from("from_cow_owned"));
    let s4 = ArcStr::from(owned.as_ref());
    for s in [&s1, &s2, &s3, &s4] {
        pool.intern(s.as_str());
    }

    assert_eq!(s1.as_str(), "from_str");
    assert_eq!(s2.as_str(), "from_string");
    assert_eq!(s3.as_str(), "from_cow");
    assert_eq!(s4.as_str(), "from_cow_owned");
    assert_eq!(pool.len(), 4);
}

#[test]
fn test_equality_operations() {
    let arc_str = ArcStr::new("test");
    let arc_str2 = ArcStr::new("test");
    let arc_str3 = ArcStr::new("test3");

    assert_eq!(arc_str, arc_str2);
    assert_ne!(arc_str, arc_str3);
    assert_eq!(arc_str.as_str(), "test");
    assert_eq!("test", arc_str.as_str());
    assert_eq!(arc_str.as_str(), String::from("test"));
    assert_eq!(String::from("test"), arc_str.as_str());
}

#[test]
fn str_pool_keeps_each_text_once() {
    let mut pool = StrPool::new();
    assert_eq!(pool.len(), 0);
    let a = pool.intern("a");
    let b = pool.intern("b");
    let a2 = pool.intern("a");
    assert_eq!(pool.len(), 2);
    assert!(a.ptr_eq(&a2));
    assert!(!a.ptr_eq(&b));
    drop(b);
    pool.prune();
    assert_eq!(pool.len(), 1);
    let a3 = pool.intern("a");
    assert!(a3.ptr_eq(&a));
}

#[test]
fn str_clone_keeps_the_shared_text() {
    let arc = ArcStr::new("test");
    let s = Str::from(arc.clone());
    assert_eq!(arc.ref_count(), 2);
    let back = s.clone().into_arc_str().unwrap();
    assert!(back.ptr_eq(&arc));
    assert_eq!(s.ref_count(), Some(3));
    assert!(Str::from_static("static").clone().into_arc_str().is_none());
}

#[test]
fn arc_test_reference_counting() {
    let mut pool = StrPool::new();
    let s1 = pool.intern("test");
    // This handle and the pool's own.
    assert_eq!(s1.ref_count(), 2);
    assert_eq!(pool.len(), 1);

    let s2 = s1.clone();
    assert_eq!(s1.ref_count(), 3);
    assert_eq!(s2.ref_count(), 3);
    assert!(s1.ptr_eq(&s2));
    assert_eq!(pool.len(), 1);

    drop(s2);
    assert_eq!(s1.ref_count(), 2);
    pool.prune();
    assert_eq!(pool.len(), 1);

    drop(s1);
    pool.prune();
    assert_eq!(pool.len(), 0);
}

#[test]
fn test_automatic_cleanup() {
    let mut pool = StrPool::new();
    assert_eq!(pool.len(), 0);
    {
        let s1 = pool.intern("cleanup_test");
        assert_eq!(pool.len(), 1);
        let _s2 = pool.intern("cleanup_test");
        assert_eq!(pool.len(), 1);
        assert_eq!(s1.ref_count(), 3);
    }
    pool.prune();
    assert_eq!(pool.len(), 0);
}

#[test]
fn arc_test_empty_string() {
    let mut pool = StrPool::new();
    let empty = pool.intern("");
    assert!(empty.is_empty());
    assert_eq!(empty.len(), 0);
    assert_eq!(empty.as_str(), "");
}

#[test]
fn retain_shared_keeps_the_counted_in_order() {
    let kept = retain_shared(
        vec![ArcStr::new("a"), ArcStr::new("b"), ArcStr::new("c"), ArcStr::new("d")],
        &vec![1, 2, 1, 5],
    );
    let texts: Vec<&str> = kept.iter().map(|a| a.as_str()).collect();
    assert_eq!(texts, vec!["b", "d"]);
    assert!(retain_shared(vec![], &vec![]).is_empty());
}
