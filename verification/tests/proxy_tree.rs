use clashctl::providers::{ProviderProxy, ProxyProvider, ProxyProviders};
use clashctl::proxies::{Proxies, Proxy};
use clashctl::proxy_type::ProxyType;
use clashctl::tree::{Action, FooterItem, KeyCode, ListEvent, ProxyTree};

fn proxy(proxy_type: ProxyType, all: Option<Vec<&str>>, now: Option<&str>) -> Proxy {
    Proxy {
        proxy_type,
        history: vec![],
        udp: None,
        all: all.map(|members| members.into_iter().map(str::to_owned).collect()),
        now: now.map(str::to_owned),
    }
}

fn proxies(entries: Vec<(&str, Proxy)>) -> Proxies {
    let mut p = Proxies::new();
    for (name, proxy) in entries {
        p.insert(name.to_owned(), proxy);
    }
    p
}

fn key(code: KeyCode) -> ListEvent {
    ListEvent { fast: false, code }
}

#[test]
fn skips_members_missing_from_proxy_map() {
    let tree = ProxyTree::from_proxies(proxies(vec![
        (
            "Group",
            proxy(
                ProxyType::Selector,
                Some(vec!["valid", "missing"]),
                Some("valid"),
            ),
        ),
        ("valid", proxy(ProxyType::Shadowsocks, None, None)),
    ]));

    assert_eq!(tree.groups().len(), 1);
    assert_eq!(tree.groups()[0].members.len(), 1);
    assert_eq!(tree.groups()[0].members[0].name, "valid");
    assert_eq!(tree.groups()[0].current, Some(0));
}

#[test]
fn clears_current_when_current_member_is_missing() {
    let tree = ProxyTree::from_proxies(proxies(vec![
        (
            "Group",
            proxy(ProxyType::Selector, Some(vec!["valid"]), Some("missing")),
        ),
        ("valid", proxy(ProxyType::Shadowsocks, None, None)),
    ]));

    assert_eq!(tree.groups()[0].current, None);
    assert_eq!(tree.groups()[0].cursor, 0);
}

#[test]
fn skips_groups_with_no_available_members() {
    let tree = ProxyTree::from_proxies(proxies(vec![(
        "Empty",
        proxy(ProxyType::Selector, Some(vec!["missing"]), Some("missing")),
    )]));

    assert!(tree.groups().is_empty());
}

#[test]
fn keeps_valid_groups_selectable() {
    let mut tree = ProxyTree::from_proxies(proxies(vec![
        (
            "Group",
            proxy(ProxyType::Selector, Some(vec!["one", "two"]), Some("one")),
        ),
        ("one", proxy(ProxyType::Shadowsocks, None, None)),
        ("two", proxy(ProxyType::Trojan, None, None)),
    ]));

    tree.hold();
    tree.handle(key(KeyCode::Down));
    let action = tree.handle(key(KeyCode::Enter));

    assert!(matches!(
        action,
        Some(Action::ApplySelection { group, proxy }) if group == "Group" && proxy == "two"
    ));
}

#[test]
fn manual_latency_test_targets_follow_the_current_focus() {
    let mut tree = ProxyTree::from_proxies(proxies(vec![
        (
            "Group",
            proxy(
                ProxyType::Selector,
                Some(vec!["one", "builtin", "two"]),
                Some("one"),
            ),
        ),
        ("one", proxy(ProxyType::Shadowsocks, None, None)),
        ("builtin", proxy(ProxyType::Direct, None, None)),
        ("two", proxy(ProxyType::Trojan, None, None)),
    ]));

    assert_eq!(
        tree.manual_latency_test_targets(),
        vec!["one".to_owned(), "two".to_owned()]
    );

    tree.hold();
    tree.handle(key(KeyCode::Down));
    assert!(tree.manual_latency_test_targets().is_empty());

    tree.handle(key(KeyCode::Down));
    assert_eq!(tree.manual_latency_test_targets(), vec!["two".to_owned()]);
}

#[test]
fn provider_resolved_group_keeps_current_member_and_can_switch() {
    let top_level = proxies(vec![(
        "Group",
        proxy(
            ProxyType::Selector,
            Some(vec!["provider-one", "provider-two"]),
            Some("provider-one"),
        ),
    )]);
    let mut providers = ProxyProviders::new();
    providers.insert(
        "subscription".to_owned(),
        ProxyProvider {
            proxies: vec![
                ProviderProxy {
                    name: "provider-one".to_owned(),
                    proxy: proxy(ProxyType::Shadowsocks, None, None),
                },
                ProviderProxy {
                    name: "provider-two".to_owned(),
                    proxy: proxy(ProxyType::Trojan, None, None),
                },
            ],
        },
    );
    let mut tree = ProxyTree::from_proxies(top_level.merge_proxy_providers(providers));

    assert_eq!(tree.groups().len(), 1);
    assert_eq!(tree.groups()[0].current, Some(0));
    assert_eq!(tree.groups()[0].members.len(), 2);

    tree.hold();
    tree.handle(key(KeyCode::Down));
    let action = tree.handle(key(KeyCode::Enter));

    assert!(matches!(
        action,
        Some(Action::ApplySelection { group, proxy }) if group == "Group" && proxy == "provider-two"
    ));
}

fn three_groups() -> ProxyTree {
    ProxyTree::from_proxies(proxies(vec![
        ("Beta", proxy(ProxyType::Selector, Some(vec!["one", "two", "three", "four", "five"]), Some("two"))),
        ("Alpha", proxy(ProxyType::URLTest, Some(vec!["one"]), None)),
        ("Gamma", proxy(ProxyType::Fallback, Some(vec!["two", "one"]), Some("one"))),
        ("one", proxy(ProxyType::Shadowsocks, None, None)),
        ("two", proxy(ProxyType::Vmess, None, None)),
        ("three", proxy(ProxyType::Http, None, None)),
        ("four", proxy(ProxyType::Snell, None, None)),
        ("five", proxy(ProxyType::Socks5, None, None)),
    ]))
}

#[test]
fn default_tree_is_empty() {
    let tree = ProxyTree::default();
    assert!(tree.is_empty());
    assert_eq!(tree.len(), 0);
    assert_eq!(tree.cursor(), 0);
    assert!(!tree.is_testing());
    assert!(!tree.is_expanded());
    assert!(tree.footer().left.is_empty());
    assert!(tree.manual_latency_test_targets().is_empty());
}

#[test]
fn groups_keep_the_order_of_the_proxies() {
    let tree = three_groups();
    let names: Vec<&str> = tree.groups().iter().map(|g| g.name.as_str()).collect();
    assert_eq!(names, vec!["Beta", "Alpha", "Gamma"]);
    assert_eq!(tree.groups()[0].cursor, 1);
    assert_eq!(tree.groups()[2].current, Some(1));
    assert_eq!(tree.current_group().name, "Beta");
}

#[test]
fn collapsed_keys_move_the_focus_within_bounds() {
    let mut tree = three_groups();
    tree.handle(key(KeyCode::Up));
    assert_eq!(tree.cursor(), 0);
    tree.handle(key(KeyCode::Down));
    tree.handle(key(KeyCode::Down));
    tree.handle(key(KeyCode::Down));
    assert_eq!(tree.cursor(), 2);
    assert_eq!(tree.handle(key(KeyCode::Right)), None);
    assert!(!tree.is_expanded());
    tree.handle(key(KeyCode::Enter));
    assert!(tree.is_expanded());
}

#[test]
fn expanded_keys_move_the_member_cursor_fast_and_slow() {
    let mut tree = three_groups();
    tree.toggle();
    tree.handle(ListEvent { fast: true, code: KeyCode::Down });
    assert_eq!(tree.groups()[0].cursor, 4);
    tree.handle(ListEvent { fast: true, code: KeyCode::Down });
    assert_eq!(tree.groups()[0].cursor, 4);
    tree.handle(ListEvent { fast: true, code: KeyCode::Up });
    assert_eq!(tree.groups()[0].cursor, 1);
    tree.handle(ListEvent { fast: true, code: KeyCode::Up });
    assert_eq!(tree.groups()[0].cursor, 0);
    tree.handle(key(KeyCode::Up));
    assert_eq!(tree.groups()[0].cursor, 0);
}

#[test]
fn only_selectors_apply_a_selection() {
    let mut tree = three_groups();
    tree.handle(key(KeyCode::Down));
    tree.hold();
    assert_eq!(tree.handle(key(KeyCode::Enter)), None);
    tree.end();
    assert!(!tree.is_expanded());
}

#[test]
fn footer_follows_the_state() {
    let mut tree = three_groups();
    tree.update_footer();
    assert_eq!(
        tree.footer().left,
        vec![FooterItem::Free, FooterItem::SpaceToExpand, FooterItem::TestGroupHelp, FooterItem::Sort]
    );
    assert_eq!(
        tree.footer().right,
        vec![FooterItem::GroupName("Beta".to_owned()), FooterItem::Text("two".to_owned())]
    );
    tree.start_testing();
    assert!(tree.is_testing());
    assert_eq!(tree.footer().left[2], FooterItem::TestingGroup);
    tree.toggle();
    assert_eq!(
        tree.footer().left,
        vec![FooterItem::Move, FooterItem::Select, FooterItem::TestingNode, FooterItem::Sort]
    );
    assert!(tree.footer().right.is_empty());
    tree.end_testing();
    assert_eq!(tree.footer().left[2], FooterItem::TestNodeHelp);
}

#[test]
fn sorting_puts_frequent_groups_first_then_names() {
    let mut tree = three_groups();
    tree.sort_groups_with_frequency(&[("Gamma".to_owned(), 3), ("Beta".to_owned(), 3)]);
    let names: Vec<&str> = tree.groups().iter().map(|g| g.name.as_str()).collect();
    // equal frequencies keep their order; groups without one come last by name
    assert_eq!(names, vec!["Beta", "Gamma", "Alpha"]);
    tree.sort_groups_with_frequency(&[("Alpha".to_owned(), 1), ("Gamma".to_owned(), 7)]);
    let names: Vec<&str> = tree.groups().iter().map(|g| g.name.as_str()).collect();
    assert_eq!(names, vec!["Gamma", "Alpha", "Beta"]);
    tree.sort_groups_with_frequency(&[]);
    let names: Vec<&str> = tree.groups().iter().map(|g| g.name.as_str()).collect();
    assert_eq!(names, vec!["Alpha", "Beta", "Gamma"]);
}

#[test]
fn replacing_keeps_the_highlighted_member_by_name() {
    let mut tree = three_groups();
    tree.toggle();
    tree.handle(key(KeyCode::Down)); // Beta: cursor on "three"
    let fresh = ProxyTree::from_proxies(proxies(vec![
        ("Beta", proxy(ProxyType::Selector, Some(vec!["three", "one"]), Some("one"))),
        ("Delta", proxy(ProxyType::Selector, Some(vec!["one", "three"]), Some("three"))),
        ("one", proxy(ProxyType::Shadowsocks, None, None)),
        ("three", proxy(ProxyType::Http, None, None)),
    ]));
    tree.replace_with(fresh);
    assert_eq!(tree.len(), 2);
    assert_eq!(tree.groups()[0].cursor, 0);
    assert_eq!(tree.groups()[0].members[0].name, "three");
    // a new group keeps its own cursor
    assert_eq!(tree.groups()[1].cursor, 1);
    assert!(tree.is_expanded());
    assert_eq!(tree.cursor(), 0);
}

#[test]
fn replacing_falls_back_to_the_member_in_use() {
    let mut tree = three_groups();
    tree.toggle();
    tree.handle(ListEvent { fast: true, code: KeyCode::Down }); // Beta: cursor on "five"
    let fresh = ProxyTree::from_proxies(proxies(vec![
        ("Beta", proxy(ProxyType::Selector, Some(vec!["one", "two"]), Some("two"))),
        ("one", proxy(ProxyType::Shadowsocks, None, None)),
        ("two", proxy(ProxyType::Vmess, None, None)),
    ]));
    tree.replace_with(fresh);
    assert_eq!(tree.groups()[0].cursor, 1);
}

#[test]
fn footer_stays_when_no_group_is_focused() {
    let mut tree = three_groups();
    tree.update_footer();
    let before = tree.footer().clone();
    assert!(!before.left.is_empty());
    tree.replace_with(ProxyTree::default());
    assert!(tree.is_empty());
    assert_eq!(tree.footer(), &before);
    tree.start_testing();
    assert_eq!(tree.footer(), &before);
    tree.end_testing();
    tree.toggle();
    assert_eq!(tree.footer(), &before);
}

#[test]
fn testing_round_trip_restores_the_footer() {
    let mut tree = three_groups();
    tree.update_footer();
    let before = tree.footer().clone();
    tree.start_testing();
    assert_ne!(tree.footer(), &before);
    tree.end_testing();
    assert_eq!(tree.footer(), &before);
    assert!(!tree.is_testing());
}
