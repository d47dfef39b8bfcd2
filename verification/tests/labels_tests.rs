use weylus::address::{IpAddress, SocketAddress};
use weylus::labels::{capture_menu, escape_name, main_window_title, menu_label, qr_window_title};

#[test]
fn markup_is_escaped() {
    assert_eq!(escape_name(r"a\b/c_d&e"), r"a\\b\/c\_d\&e");
    assert_eq!(escape_name("plain"), "plain");
}

#[test]
fn escape_matches_chained_replace() {
    for name in [r"x\/_&y", "Firefox — Weylus", "a__b", r"\\"] {
        let chained = name
            .replace("\\", "\\\\")
            .replace("/", "\\/")
            .replace("_", "\\_")
            .replace("&", "\\&");
        assert_eq!(escape_name(name), chained);
    }
}

#[test]
fn long_names_are_cut() {
    let exact: String = "a".repeat(32);
    assert_eq!(menu_label(&exact), exact);
    let long: String = "b".repeat(33);
    assert_eq!(menu_label(&long), format!("{}...", "b".repeat(32)));
    let marked: String = "_".repeat(20);
    assert_eq!(menu_label(&marked), format!("{}...", "\\_".repeat(16)));
}

#[test]
fn law_menu_label_is_short() {
    for name in ["", "short", &"é".repeat(100), &"&".repeat(17)] {
        let label = menu_label(name);
        assert!(label.chars().count() <= 35);
        let escaped = escape_name(name);
        if escaped.chars().count() <= 32 {
            assert_eq!(label, escaped);
        }
    }
}

#[test]
fn law_escape_adds_one_char_per_markup() {
    let name = r"a\b/c_d&e__";
    let markup = name.chars().filter(|c| matches!(c, '\\' | '/' | '_' | '&')).count();
    assert_eq!(escape_name(name).chars().count(), name.chars().count() + markup);
}

#[test]
fn menu_for_targets() {
    let names = vec!["Desktop".to_string(), "a/b".to_string()];
    let m = capture_menu(&names, false);
    assert!(m.select_first);
    assert_eq!(m.labels, vec!["Desktop".to_string(), "a\\/b".to_string()]);
    assert!(!capture_menu(&names, true).select_first);
    assert!(capture_menu(&Vec::new(), true).labels.is_empty());
}

#[test]
fn titles() {
    let addr = SocketAddress { ip: IpAddress::V4(10, 0, 0, 2), port: 1701 };
    assert_eq!(qr_window_title(&addr), "Weylus - QR Code for: 10.0.0.2:1701");
    let v6 = SocketAddress { ip: IpAddress::V6(0xfe80, 0, 0, 0, 0, 0, 0, 1), port: 9 };
    assert_eq!(qr_window_title(&v6), "Weylus - QR Code for: [fe80::1]:9");
    assert_eq!(main_window_title("0.11.4"), "Weylus - 0.11.4");
}
