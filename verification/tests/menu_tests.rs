use proxy_tray::menu::{
    generate_group_selector, setup_tray, SystemTrayMenuProxiesExt, TrayEntry, TrayItem, TrayMenu, TraySubmenu,
};
use proxy_tray::model::{ProxyGroup, ProxyItem, ProxyRecords, ProxySnapshot};

fn grp(name: &str, all: &[&str], now: Option<&str>) -> ProxyGroup {
    ProxyGroup {
        name: name.to_string(),
        all: all.iter().map(|n| ProxyItem { name: n.to_string(), kind: "Ss".to_string() }).collect(),
        now: now.map(|n| n.to_string()),
    }
}

fn entry(id: &str, title: &str, selected: bool) -> TrayItem {
    TrayItem { id: id.to_string(), title: title.to_string(), selected, enabled: true }
}

fn snapshot(groups: Vec<ProxyGroup>) -> ProxySnapshot {
    let mut r = ProxyRecords::new();
    for g in groups {
        r.insert(g);
    }
    ProxySnapshot { global: grp("GLOBAL", &["DIRECT", "Auto"], Some("Auto")), groups: r, updated_at: 1 }
}

fn global_selector() -> TrayEntry {
    TrayEntry::Submenu(TraySubmenu {
        title: "GLOBAL".to_string(),
        items: vec![
            entry("select_proxy_GLOBAL_DIRECT", "DIRECT", false),
            entry("select_proxy_GLOBAL_Auto", "Auto", true),
        ],
    })
}

fn quit_menu() -> TrayMenu {
    TrayMenu {
        entries: vec![
            TrayEntry::Item(TrayItem {
                id: "quit".to_string(),
                title: "Quit".to_string(),
                selected: false,
                enabled: true,
            }),
            TrayEntry::Submenu(TraySubmenu {
                title: "More".to_string(),
                items: vec![entry("about", "About", false)],
            }),
        ],
    }
}

#[test]
fn selector_lists_candidates_and_marks_selection() {
    let sub = generate_group_selector(&grp("Proxy1", &["server1", "server2", "server3"], Some("server2")));
    assert_eq!(
        sub,
        TraySubmenu {
            title: "Proxy1".to_string(),
            items: vec![
                entry("select_proxy_Proxy1_server1", "server1", false),
                entry("select_proxy_Proxy1_server2", "server2", true),
                entry("select_proxy_Proxy1_server3", "server3", false),
            ],
        }
    );
}

#[test]
fn selector_without_selection_marks_nothing() {
    let sub = generate_group_selector(&grp("G", &["a", "b"], None));
    assert_eq!(sub.items, vec![entry("select_proxy_G_a", "a", false), entry("select_proxy_G_b", "b", false)]);
    let stray = generate_group_selector(&grp("G", &["a"], Some("zz")));
    assert_eq!(stray.items, vec![entry("select_proxy_G_a", "a", false)]);
    let none = generate_group_selector(&grp("G", &[], None));
    assert_eq!(none, TraySubmenu { title: "G".to_string(), items: vec![] });
}

#[test]
fn rule_mode_lists_groups_by_name() {
    let snap = snapshot(vec![grp("Video", &["v1"], Some("v1")), grp("Auto", &["a1", "a2"], Some("a2"))]);
    let mut menu = quit_menu();
    let out = setup_tray(&mut menu, &snap, "rule");
    assert_eq!(menu, quit_menu());
    let mut expected = quit_menu();
    expected.entries.push(TrayEntry::Submenu(TraySubmenu {
        title: "Auto".to_string(),
        items: vec![entry("select_proxy_Auto_a1", "a1", false), entry("select_proxy_Auto_a2", "a2", true)],
    }));
    expected.entries.push(TrayEntry::Submenu(TraySubmenu {
        title: "Video".to_string(),
        items: vec![entry("select_proxy_Video_v1", "v1", true)],
    }));
    assert_eq!(out, expected);
    assert_eq!(setup_tray(&mut menu, &snap, "script"), expected);
}

#[test]
fn global_mode_puts_the_pseudo_group_first() {
    let snap = snapshot(vec![grp("Auto", &["a1"], Some("a1"))]);
    let mut menu = TrayMenu { entries: vec![] };
    let out = setup_tray(&mut menu, &snap, "global");
    assert_eq!(
        out.entries,
        vec![
            global_selector(),
            TrayEntry::Submenu(TraySubmenu {
                title: "Auto".to_string(),
                items: vec![entry("select_proxy_Auto_a1", "a1", true)],
            }),
        ]
    );
}

#[test]
fn pseudo_group_stands_in_where_there_are_no_groups() {
    let snap = snapshot(vec![]);
    let mut menu = TrayMenu { entries: vec![] };
    assert_eq!(setup_tray(&mut menu, &snap, "rule").entries, vec![global_selector()]);
    assert_eq!(setup_tray(&mut menu, &snap, "global").entries, vec![global_selector()]);
}

#[test]
fn other_modes_show_one_disabled_entry() {
    let snap = snapshot(vec![grp("Auto", &["a1"], Some("a1"))]);
    let mut menu = quit_menu();
    let mut expected = quit_menu();
    expected.entries.push(TrayEntry::Item(TrayItem {
        id: "no_proxy".to_string(),
        title: "NO PROXY COULD SELECTED".to_string(),
        selected: false,
        enabled: false,
    }));
    assert_eq!(setup_tray(&mut menu, &snap, "direct"), expected);
    assert_eq!(setup_tray(&mut menu, &snap, ""), expected);
    assert_eq!(setup_tray(&mut menu, &snap, "Rule"), expected);
    assert_eq!(menu, quit_menu());
}

#[test]
fn menu_method_does_what_setup_tray_does() {
    let snap = snapshot(vec![grp("Auto", &["a1"], Some("a1"))]);
    let mut menu = quit_menu();
    let via_method = menu.setup_proxies(&snap, "global");
    let via_function = setup_tray(&mut menu, &snap, "global");
    assert_eq!(via_method, via_function);
    assert_eq!(via_method.entries.len(), 4);
}
