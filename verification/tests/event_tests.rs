use proxy_tray::event::{on_system_tray_event, SelectRequest};

fn request(group: &str, name: &str) -> Option<SelectRequest> {
    Some(SelectRequest { group: group.to_string(), name: name.to_string() })
}

#[test]
fn select_event_names_group_and_proxy() {
    assert_eq!(on_system_tray_event("select_proxy_Proxy1_server2"), request("Proxy1", "server2"));
}

#[test]
fn event_of_three_segments_is_ignored() {
    assert_eq!(on_system_tray_event("select_proxy_bad"), None);
}

#[test]
fn other_event_is_ignored() {
    assert_eq!(on_system_tray_event("other_event"), None);
    assert_eq!(on_system_tray_event(""), None);
    assert_eq!(on_system_tray_event("quit"), None);
    assert_eq!(on_system_tray_event("select_proxy"), None);
    assert_eq!(on_system_tray_event("select_proxy_"), None);
    assert_eq!(on_system_tray_event("select-proxy-Proxy1-server2"), None);
    assert_eq!(on_system_tray_event("xselect_proxy_Proxy1_server2"), None);
    assert_eq!(on_system_tray_event("SELECT_PROXY_Proxy1_server2"), None);
}

#[test]
fn underscore_in_a_name_is_not_supported() {
    assert_eq!(on_system_tray_event("select_proxy_my_group_server"), None);
    assert_eq!(on_system_tray_event("select_proxy_group_my_server"), None);
    assert_eq!(on_system_tray_event("select_proxy_group_server_"), None);
}

#[test]
fn empty_segments_are_taken_as_names() {
    assert_eq!(on_system_tray_event("select_proxy__"), request("", ""));
    assert_eq!(on_system_tray_event("select_proxy__x"), request("", "x"));
    assert_eq!(on_system_tray_event("select_proxy_g_"), request("g", ""));
}

#[test]
fn names_outside_ascii_are_read_whole() {
    assert_eq!(on_system_tray_event("select_proxy_节点选择_香港 01"), request("节点选择", "香港 01"));
    assert_eq!(on_system_tray_event("select_proxy_🚀_é"), request("🚀", "é"));
}

#[test]
fn event_agrees_with_split_on_underscore() {
    let events = [
        "select_proxy_a_b",
        "select_proxy_a",
        "select_proxy_a_b_c",
        "select_proxy__",
        "select_proxy___",
        "select_proxy_",
        "select_proxyX_a_b",
        "a_b_c_d",
        "select_proxy_long group name_long-proxy.name:443",
    ];
    for e in events.iter() {
        let parts: Vec<&str> = e.split('_').collect();
        let expected = if e.starts_with("select_proxy_") && parts.len() == 4 {
            request(parts[2], parts[3])
        } else {
            None
        };
        assert_eq!(on_system_tray_event(e), expected, "{:?}", e);
    }
}
