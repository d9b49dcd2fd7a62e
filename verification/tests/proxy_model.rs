use clashctl::providers::{ProviderProxy, ProxyProvider, ProxyProviders};
use clashctl::proxies::{Proxies, Proxy};
use clashctl::proxy_type::ProxyType;

fn proxy(proxy_type: ProxyType) -> Proxy {
    Proxy {
        proxy_type,
        history: vec![],
        udp: None,
        all: None,
        now: None,
    }
}

fn proxies_of(entries: Vec<(&str, Proxy)>) -> Proxies {
    let mut p = Proxies::new();
    for (name, proxy) in entries {
        p.insert(name.to_owned(), proxy);
    }
    p
}

fn providers_of(entries: Vec<(&str, Vec<(&str, ProxyType)>)>) -> ProxyProviders {
    let mut ps = ProxyProviders::new();
    for (name, proxies) in entries {
        ps.insert(
            name.to_owned(),
            ProxyProvider {
                proxies: proxies
                    .into_iter()
                    .map(|(n, t)| ProviderProxy {
                        name: n.to_owned(),
                        proxy: proxy(t),
                    })
                    .collect(),
            },
        );
    }
    ps
}

#[test]
fn test_proxies() {
    let proxy_kv = [
        (
            "test_a".to_owned(),
            Proxy {
                proxy_type: ProxyType::Direct,
                history: vec![],
                udp: Some(false),
                all: None,
                now: None,
            },
        ),
        (
            "test_b".to_owned(),
            Proxy {
                proxy_type: ProxyType::Selector,
                history: vec![],
                udp: Some(false),
                all: Some(vec!["test_c".into()]),
                now: Some("test_c".into()),
            },
        ),
        (
            "test_c".to_owned(),
            Proxy {
                proxy_type: ProxyType::Shadowsocks,
                history: vec![],
                udp: Some(false),
                all: None,
                now: None,
            },
        ),
        (
            "test_d".to_owned(),
            Proxy {
                proxy_type: ProxyType::Fallback,
                history: vec![],
                udp: Some(false),
                all: Some(vec!["test_c".into()]),
                now: Some("test_c".into()),
            },
        ),
    ];
    let mut proxies = Proxies::new();
    for (name, proxy) in proxy_kv {
        proxies.insert(name, proxy);
    }
    assert_eq!(
        {
            let mut tmp = proxies.groups().into_iter().map(|x| x.0).collect::<Vec<_>>();
            tmp.sort();
            tmp
        },
        vec!["test_b", "test_d"]
    );
    assert_eq!(
        proxies.built_ins().into_iter().map(|x| x.0).collect::<Vec<_>>(),
        vec!["test_a"]
    );
    assert_eq!(
        proxies.normal().into_iter().map(|x| x.0).collect::<Vec<_>>(),
        vec!["test_c"]
    );
}

#[test]
fn top_level_proxy_takes_precedence_over_provider_proxy() {
    let providers = providers_of(vec![(
        "subscription",
        vec![("duplicate", ProxyType::Shadowsocks)],
    )]);
    let top_level = proxies_of(vec![("duplicate", proxy(ProxyType::Direct))]);

    let merged = top_level.merge_proxy_providers(providers);

    assert_eq!(merged.get("duplicate").unwrap().proxy_type, ProxyType::Direct);
}

#[test]
fn first_provider_in_deterministic_order_wins_duplicate_names() {
    let providers = providers_of(vec![
        ("a-provider", vec![("duplicate", ProxyType::Shadowsocks)]),
        ("z-provider", vec![("duplicate", ProxyType::Trojan)]),
    ]);

    let merged = Proxies::new().merge_proxy_providers(providers);

    assert_eq!(
        merged.get("duplicate").unwrap().proxy_type,
        ProxyType::Shadowsocks
    );
}

#[test]
fn empty_provider_response_preserves_proxy_map() {
    let top_level = proxies_of(vec![("node", proxy(ProxyType::Trojan))]);

    assert_eq!(
        top_level
            .clone()
            .merge_proxy_providers(ProxyProviders::default()),
        top_level
    );
}

#[test]
fn provider_order_does_not_depend_on_insertion_order() {
    // inserted in reverse name order: the provider named first still wins
    let providers = providers_of(vec![
        ("z-provider", vec![("duplicate", ProxyType::Trojan)]),
        ("a-provider", vec![("duplicate", ProxyType::Shadowsocks)]),
    ]);
    let names: Vec<&str> = providers.entries().iter().map(|e| e.0.as_str()).collect();
    assert_eq!(names, vec!["a-provider", "z-provider"]);

    let merged = Proxies::new().merge_proxy_providers(providers);
    assert_eq!(
        merged.get("duplicate").unwrap().proxy_type,
        ProxyType::Shadowsocks
    );
}

#[test]
fn first_proxy_within_one_provider_wins() {
    let providers = providers_of(vec![(
        "sub",
        vec![("dup", ProxyType::Vmess), ("dup", ProxyType::Http), ("other", ProxyType::Snell)],
    )]);
    let merged = proxies_of(vec![("top", proxy(ProxyType::Reject))]).merge_proxy_providers(providers);
    assert_eq!(merged.len(), 3);
    assert_eq!(merged.get("dup").unwrap().proxy_type, ProxyType::Vmess);
    assert_eq!(merged.get("other").unwrap().proxy_type, ProxyType::Snell);
    assert_eq!(merged.get("top").unwrap().proxy_type, ProxyType::Reject);
    // the known proxies keep their place in front
    assert_eq!(merged.entries()[0].0, "top");
    assert!(merged.get("missing").is_none());
}

#[test]
fn provider_insert_replaces_same_name() {
    let mut providers = ProxyProviders::new();
    assert!(providers
        .insert("b".to_owned(), ProxyProvider { proxies: vec![] })
        .is_none());
    assert!(providers
        .insert("a".to_owned(), ProxyProvider { proxies: vec![] })
        .is_none());
    let replaced = providers.insert(
        "b".to_owned(),
        ProxyProvider {
            proxies: vec![ProviderProxy {
                name: "x".to_owned(),
                proxy: proxy(ProxyType::Http),
            }],
        },
    );
    assert_eq!(replaced, Some(ProxyProvider { proxies: vec![] }));
    assert_eq!(providers.len(), 2);
    assert_eq!(providers.entries()[1].1.proxies.len(), 1);
    let all = providers.into_all_proxies();
    assert_eq!(all.len(), 1);
    assert_eq!(all[0].name, "x");
}

#[test]
fn proxies_insert_replaces_and_reports_the_old_proxy() {
    let mut p = proxies_of(vec![("a", proxy(ProxyType::Http)), ("b", proxy(ProxyType::Vmess))]);
    let old = p.insert("a".to_owned(), proxy(ProxyType::Trojan));
    assert_eq!(old.unwrap().proxy_type, ProxyType::Http);
    assert_eq!(p.len(), 2);
    assert_eq!(p.entries()[0].0, "a");
    assert_eq!(p.get("a").unwrap().proxy_type, ProxyType::Trojan);
    assert!(p.contains_key("b"));
    assert!(!p.contains_key("c"));
    assert!(!p.is_empty());
}

#[test]
fn kinds_are_disjoint() {
    let all = [
        ProxyType::Direct,
        ProxyType::Reject,
        ProxyType::Selector,
        ProxyType::URLTest,
        ProxyType::Fallback,
        ProxyType::LoadBalance,
        ProxyType::Shadowsocks,
        ProxyType::Vmess,
        ProxyType::ShadowsocksR,
        ProxyType::Http,
        ProxyType::Snell,
        ProxyType::Trojan,
        ProxyType::Socks5,
        ProxyType::Relay,
        ProxyType::Unknown,
    ];
    for t in all {
        let kinds = [t.is_built_in(), t.is_group(), t.is_normal()];
        let n = kinds.iter().filter(|k| **k).count();
        if t == ProxyType::Unknown {
            assert_eq!(n, 0);
        } else {
            assert_eq!(n, 1);
        }
        if t.is_selector() {
            assert!(t.is_group());
        }
    }
    assert!(ProxyType::Relay.is_group());
    assert!(!ProxyType::URLTest.is_selector());
}

#[test]
fn selectors_are_listed_among_groups() {
    let p = proxies_of(vec![
        ("s", proxy(ProxyType::Selector)),
        ("u", proxy(ProxyType::URLTest)),
        ("n", proxy(ProxyType::Socks5)),
        ("x", proxy(ProxyType::Unknown)),
    ]);
    let sel: Vec<&String> = p.selectors().into_iter().map(|x| x.0).collect();
    let groups: Vec<&String> = p.groups().into_iter().map(|x| x.0).collect();
    assert_eq!(sel, vec!["s"]);
    assert_eq!(groups, vec!["s", "u"]);
    assert!(p.built_ins().is_empty());
}

fn proxy_type_named(name: &str) -> ProxyType {
    match name {
        "Direct" => ProxyType::Direct,
        "Reject" => ProxyType::Reject,
        "Selector" => ProxyType::Selector,
        "URLTest" => ProxyType::URLTest,
        "Fallback" => ProxyType::Fallback,
        "LoadBalance" => ProxyType::LoadBalance,
        "Shadowsocks" => ProxyType::Shadowsocks,
        "Vmess" => ProxyType::Vmess,
        "ShadowsocksR" => ProxyType::ShadowsocksR,
        "Http" => ProxyType::Http,
        "Snell" => ProxyType::Snell,
        "Trojan" => ProxyType::Trojan,
        "Socks5" => ProxyType::Socks5,
        "Relay" => ProxyType::Relay,
        _ => ProxyType::Unknown,
    }
}

/// Reads a `/providers/proxies` answer with serde_json's generic values.
fn providers_from_json(text: &str) -> ProxyProviders {
    let value: serde_json::Value = serde_json::from_str(text).unwrap();
    let mut providers = ProxyProviders::new();
    for (name, provider) in value["providers"].as_object().unwrap() {
        let proxies = provider["proxies"]
            .as_array()
            .unwrap()
            .iter()
            .map(|p| ProviderProxy {
                name: p["name"].as_str().unwrap().to_owned(),
                proxy: proxy(proxy_type_named(p["type"].as_str().unwrap())),
            })
            .collect();
        providers.insert(name.clone(), ProxyProvider { proxies });
    }
    providers
}

#[test]
fn deserializes_and_merges_provider_only_proxies() {
    let providers = providers_from_json(
        r#"{"providers":{"subscription":{"proxies":[{"name":"provider-node","type":"Shadowsocks","history":[]}]}}}"#,
    );
    let merged = Proxies::default().merge_proxy_providers(providers);

    assert_eq!(
        merged.get("provider-node").unwrap().proxy_type,
        ProxyType::Shadowsocks
    );
}

#[test]
fn merging_the_same_providers_twice_changes_nothing() {
    let providers = providers_of(vec![
        ("b", vec![("x", ProxyType::Vmess), ("y", ProxyType::Http)]),
        ("a", vec![("y", ProxyType::Trojan), ("top", ProxyType::Snell)]),
    ]);
    let top = proxies_of(vec![("top", proxy(ProxyType::Direct))]);
    let once = top.merge_proxy_providers(providers.clone());
    let names: Vec<&str> = once.entries().iter().map(|e| e.0.as_str()).collect();
    assert_eq!(names, vec!["top", "y", "x"]);
    assert_eq!(once.get("y").unwrap().proxy_type, ProxyType::Trojan);
    let twice = once.clone().merge_proxy_providers(providers);
    assert_eq!(twice, once);
}
