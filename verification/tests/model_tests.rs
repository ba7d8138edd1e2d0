use proxy_tray::model::{ProxyGroup, ProxyItem, ProxyRecords};
use proxy_tray::order::{str_eq, str_lt};

fn plain(name: &str, now: Option<&str>) -> ProxyGroup {
    ProxyGroup {
        name: name.to_string(),
        all: vec![
            ProxyItem { name: "s1".to_string(), kind: "Vmess".to_string() },
            ProxyItem { name: "s2".to_string(), kind: "Trojan".to_string() },
        ],
        now: now.map(|n| n.to_string()),
    }
}

#[test]
fn order_of_strings_is_that_of_std() {
    let words = ["", "a", "A", "ab", "abc", "b", "B1", "_", "select", "é", "z", "名", "a名", "😀", "\u{ffff}"];
    for a in words.iter() {
        for b in words.iter() {
            assert_eq!(str_lt(a, b), a < b, "{:?} < {:?}", a, b);
            assert_eq!(str_eq(a, b), a == b, "{:?} == {:?}", a, b);
        }
    }
}

#[test]
fn prefix_sorts_first() {
    assert!(str_lt("ab", "abc"));
    assert!(!str_lt("abc", "ab"));
    assert!(!str_lt("abc", "abc"));
    assert!(str_lt("", "a"));
    assert!(!str_lt("", ""));
}

#[test]
fn records_keep_name_order() {
    let mut r = ProxyRecords::new();
    assert_eq!(r.len(), 0);
    assert!(r.insert(plain("m", None)).is_none());
    assert!(r.insert(plain("c", None)).is_none());
    assert!(r.insert(plain("x", None)).is_none());
    assert!(r.insert(plain("a", None)).is_none());
    assert_eq!(r.len(), 4);
    let names: Vec<String> = (0..r.len()).map(|i| r.group_at(i).name.clone()).collect();
    assert_eq!(names, vec!["a", "c", "m", "x"]);
}

#[test]
fn insert_replaces_group_of_same_name() {
    let mut r = ProxyRecords::new();
    r.insert(plain("a", Some("s1")));
    r.insert(plain("b", Some("s1")));
    let prev = r.insert(plain("a", Some("s2")));
    assert_eq!(prev, Some(plain("a", Some("s1"))));
    assert_eq!(r.len(), 2);
    assert_eq!(r.get("a"), Some(&plain("a", Some("s2"))));
    assert_eq!(r.get("b"), Some(&plain("b", Some("s1"))));
}

#[test]
fn get_finds_by_name_only() {
    let mut r = ProxyRecords::new();
    r.insert(plain("Proxy", Some("s1")));
    assert!(r.get("Proxy").is_some());
    assert!(r.get("proxy").is_none());
    assert!(r.get("").is_none());
    assert!(ProxyRecords::new().get("Proxy").is_none());
}

#[test]
fn selection_must_be_a_candidate() {
    assert!(plain("g", None).selection_is_candidate());
    assert!(plain("g", Some("s1")).selection_is_candidate());
    assert!(plain("g", Some("s2")).selection_is_candidate());
    assert!(!plain("g", Some("s3")).selection_is_candidate());
    let empty = ProxyGroup { name: "g".to_string(), all: vec![], now: Some("s1".to_string()) };
    assert!(!empty.selection_is_candidate());
}
