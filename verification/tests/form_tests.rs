use weylus::address::{IpAddress, SocketAddress};
use weylus::form::{
    control_availability, default_form, password_from_field, read_settings, resets_capture_target,
    Platform, SettingsError,
};
use weylus::number::IntErrorKind;

fn any_v4() -> IpAddress {
    IpAddress::V4(0, 0, 0, 0)
}

#[test]
fn default_form_values() {
    let f = default_form(Platform::Linux);
    assert_eq!(f.password, "");
    assert_eq!(f.bind_address, "0.0.0.0");
    assert_eq!(f.web_port, "1701");
    assert_eq!(f.pointer_port, "9001");
    assert_eq!(f.video_port, "9002");
    assert_eq!(f.screen_update_limit, "0");
    assert!(f.stylus_simulation && f.faster_capture && !f.capture_cursor);
    assert!(f.enable_mouse && f.enable_stylus && f.enable_touch);
    let w = default_form(Platform::Windows);
    assert!(!w.stylus_simulation && !w.faster_capture && !w.capture_cursor);
}

#[test]
fn law_default_form_is_accepted() {
    for p in [Platform::Linux, Platform::Windows, Platform::Other] {
        let s = read_settings(&default_form(p)).unwrap();
        assert_eq!(s.password, None);
        assert_eq!(s.bind, any_v4());
        assert_eq!((s.web_port, s.pointer_port, s.video_port), (1701, 9001, 9002));
        assert_eq!(s.screen_update_interval_ms, 0);
        assert_eq!(s.web_address(), SocketAddress { ip: any_v4(), port: 1701 });
        assert_eq!(s.pointer_address(), SocketAddress { ip: any_v4(), port: 9001 });
        assert_eq!(s.video_address(), SocketAddress { ip: any_v4(), port: 9002 });
    }
}

#[test]
fn password_field() {
    assert_eq!(password_from_field(""), None);
    assert_eq!(password_from_field("s3cret"), Some("s3cret".to_string()));
    let mut f = default_form(Platform::Other);
    f.password = "pw".to_string();
    assert_eq!(read_settings(&f).unwrap().password, Some("pw".to_string()));
}

#[test]
fn first_failing_field_decides_the_error() {
    let mut f = default_form(Platform::Linux);
    f.web_port = "x".to_string();
    f.video_port = "".to_string();
    f.bind_address = "localhost".to_string();
    assert_eq!(read_settings(&f).err(), Some(SettingsError::BindAddress));
    f.bind_address = "0.0.0.0".to_string();
    assert_eq!(
        read_settings(&f).err(),
        Some(SettingsError::WebPort(IntErrorKind::InvalidDigit))
    );
    f.web_port = "80".to_string();
    f.pointer_port = "65536".to_string();
    assert_eq!(
        read_settings(&f).err(),
        Some(SettingsError::PointerPort(IntErrorKind::PosOverflow))
    );
    f.pointer_port = "81".to_string();
    assert_eq!(
        read_settings(&f).err(),
        Some(SettingsError::VideoPort(IntErrorKind::Empty))
    );
    f.video_port = "82".to_string();
    f.screen_update_limit = "-1".to_string();
    assert_eq!(
        read_settings(&f).err(),
        Some(SettingsError::ScreenUpdateLimit(IntErrorKind::InvalidDigit))
    );
    f.screen_update_limit = "16".to_string();
    f.bind_address = "127.0.0.1".to_string();
    let s = read_settings(&f).unwrap();
    assert_eq!(s.bind, IpAddress::V4(127, 0, 0, 1));
    assert_eq!((s.web_port, s.pointer_port, s.video_port, s.screen_update_interval_ms), (80, 81, 82, 16));
}

#[test]
fn check_boxes_are_carried() {
    let mut f = default_form(Platform::Linux);
    f.enable_touch = false;
    f.capture_cursor = true;
    f.faster_capture = false;
    let s = read_settings(&f).unwrap();
    assert!(!s.enable_touch && s.enable_mouse && s.enable_stylus);
    assert!(s.capture_cursor && !s.faster_capture && s.stylus_simulation);
    assert!(resets_capture_target(&s));
}

#[test]
fn controls_by_platform() {
    let a = control_availability(Platform::Linux, true);
    assert!(a.stylus_simulation && a.faster_capture && a.capture_target);
    let b = control_availability(Platform::Linux, false);
    assert!(b.faster_capture && !b.capture_target);
    let c = control_availability(Platform::Windows, true);
    assert!(!c.stylus_simulation && !c.faster_capture && !c.capture_target);
}

#[test]
fn ipv6_bind_address() {
    let mut f = default_form(Platform::Linux);
    f.bind_address = "::".to_string();
    let s = read_settings(&f).unwrap();
    assert_eq!(s.bind, IpAddress::V6(0, 0, 0, 0, 0, 0, 0, 0));
}
