use cursor_api::proxy_pool::{missing_clients, settle_general, stale_clients, ProxyUrl, SingleProxy};

fn setting(s: &str) -> SingleProxy {
    SingleProxy::from_str(s).unwrap()
}

#[test]
fn proxy_addresses_checked_by_reqwest() {
    let u = ProxyUrl::from_str("http://pro.xy").unwrap();
    assert_eq!(u.as_str(), "http://pro.xy");
    assert_eq!(u.to_string(), "http://pro.xy");
    let _proxy = u.to_proxy();
    // no scheme: reqwest tries again with http:// in front
    assert!(ProxyUrl::from_str("127.0.0.1:8080").is_ok());
    // no host at all
    assert!(ProxyUrl::from_str("").is_err());
    assert!(ProxyUrl::from_str("http://").is_err());
    assert!(u.clone() == u);
    assert!(u != ProxyUrl::from_str("http://other.xy").unwrap());
}

#[test]
fn proxy_settings_from_text_and_back() {
    assert!(setting("non") == SingleProxy::Non);
    assert!(setting("sys") == SingleProxy::Sys);
    let url = setting("socks5://127.0.0.1:1080");
    assert!(matches!(url, SingleProxy::Url(_)));
    for text in ["non", "sys", "http://pro.xy:3128", "socks5://127.0.0.1:1080"] {
        assert_eq!(setting(text).to_string(), text);
    }
    let err = SingleProxy::from_str("http://").err().unwrap();
    assert!(!err.is_empty());
    assert!(setting("http://a.xy") != setting("http://b.xy"));
    assert!(setting("http://a.xy") == setting("http://a.xy"));
    assert!(setting("non") != setting("sys"));
}

#[test]
fn general_proxy_settled() {
    let names: Vec<String> = vec!["work".to_string(), "home".to_string()];
    assert_eq!(settle_general(&names, "home"), "home");
    assert_eq!(settle_general(&names, "gone"), "work");
    assert_eq!(settle_general(&Vec::new(), "gone"), "sys");
    assert_eq!(settle_general(&Vec::new(), "sys"), "sys");
    // settling again changes nothing
    let once = settle_general(&names, "gone");
    assert_eq!(settle_general(&names, &once), once);
}

#[test]
fn client_pool_updated() {
    let pooled = vec![setting("sys"), setting("http://old.xy"), setting("non")];
    let configured = vec![
        setting("http://new.xy"),
        setting("sys"),
        setting("http://new.xy"),
        setting("non"),
        setting("http://more.xy"),
    ];
    assert_eq!(stale_clients(&pooled, &configured), vec![1]);
    assert_eq!(missing_clients(&configured, &pooled), vec![0, 4]);
    assert_eq!(stale_clients(&pooled, &Vec::new()), vec![0, 1, 2]);
    assert_eq!(missing_clients(&Vec::new(), &pooled), Vec::<usize>::new());
}
