use vstd::prelude::*;
use crate::address::{IpAddress, SocketAddress};
use crate::number::{IntErrorKind, parse_unsigned, parse_u16, parse_u64};
use crate::ip_parse::{parse_ip, parse_ip_address};

verus! {

/// The operating system the window runs on, as far as it changes the form.
#[derive(Debug, Clone, Copy, PartialEq, Eq, Structural)]
pub enum Platform {
    Linux,
    Windows,
    Other,
}

/// What the settings form holds: the text of each field and the state of
/// each check box.
#[derive(Debug)]
pub struct FormValues {
    pub password: String,
    pub bind_address: String,
    pub web_port: String,
    pub pointer_port: String,
    pub video_port: String,
    /// The least time between two screen updates, in milliseconds.
    pub screen_update_limit: String,
    pub stylus_simulation: bool,
    pub faster_capture: bool,
    pub capture_cursor: bool,
    pub enable_mouse: bool,
    pub enable_stylus: bool,
    pub enable_touch: bool,
}

/// The settings the servers are started with.
#[derive(Debug)]
pub struct Settings {
    /// The password clients must give; none where the field is empty.
    pub password: Option<String>,
    pub bind: IpAddress,
    pub web_port: u16,
    pub pointer_port: u16,
    pub video_port: u16,
    pub screen_update_interval_ms: u64,
    pub stylus_simulation: bool,
    pub faster_capture: bool,
    pub capture_cursor: bool,
    pub enable_mouse: bool,
    pub enable_stylus: bool,
    pub enable_touch: bool,
}

/// Why the form could not be turned into settings: the first field, in the
/// order the form is read, that holds no valid value.
#[derive(Debug, Clone, Copy, PartialEq, Eq, Structural)]
pub enum SettingsError {
    BindAddress,
    WebPort(IntErrorKind),
    PointerPort(IntErrorKind),
    VideoPort(IntErrorKind),
    ScreenUpdateLimit(IntErrorKind),
}

/// The password setting that a password field holding `text` gives.
pub open spec fn password_setting(text: Seq<char>, password: Option<String>) -> bool {
    match password {
        None => text.len() == 0,
        Some(p) => text.len() > 0 && p@ == text,
    }
}

/// The outcome of reading the form, up to the password: the error of the
/// first field that fails, else the bind address, the three ports and the
/// update interval.
pub open spec fn read_numbers(form: FormValues) -> Result<
    (IpAddress, int, int, int, int),
    SettingsError,
> {
    match parse_ip(form.bind_address@) {
        None => Err(SettingsError::BindAddress),
        Some(ip) => match parse_unsigned(form.web_port@, u16::MAX as int) {
            Err(e) => Err(SettingsError::WebPort(e)),
            Ok(web) => match parse_unsigned(form.pointer_port@, u16::MAX as int) {
                Err(e) => Err(SettingsError::PointerPort(e)),
                Ok(pointer) => match parse_unsigned(form.video_port@, u16::MAX as int) {
                    Err(e) => Err(SettingsError::VideoPort(e)),
                    Ok(video) => match parse_unsigned(form.screen_update_limit@, u64::MAX as int) {
                        Err(e) => Err(SettingsError::ScreenUpdateLimit(e)),
                        Ok(limit) => Ok((ip, web, pointer, video, limit)),
                    },
                },
            },
        },
    }
}

/// `settings` is what a successful read of `form` gives.
pub open spec fn settings_of(form: FormValues, settings: Settings) -> bool {
    match read_numbers(form) {
        Err(_) => false,
        Ok((ip, web, pointer, video, limit)) => {
            &&& password_setting(form.password@, settings.password)
            &&& settings.bind == ip
            &&& settings.web_port == web
            &&& settings.pointer_port == pointer
            &&& settings.video_port == video
            &&& settings.screen_update_interval_ms == limit
            &&& settings.stylus_simulation == form.stylus_simulation
            &&& settings.faster_capture == form.faster_capture
            &&& settings.capture_cursor == form.capture_cursor
            &&& settings.enable_mouse == form.enable_mouse
            &&& settings.enable_stylus == form.enable_stylus
            &&& settings.enable_touch == form.enable_touch
        },
    }
}

/// The password setting of a password field: none where it is empty.
pub fn password_from_field(text: &str) -> (res: Option<String>)
    ensures
        password_setting(text@, res),
{
    if text.unicode_len() == 0 {
        None
    } else {
        Some(text.to_owned())
    }
}

/// Reads the settings from the form. The fields are read
/// in the order password, bind address, web port, pointer port, video port,
/// update limit, and the first that fails decides the error.
pub fn read_settings(form: &FormValues) -> (res: Result<
    Settings,
    SettingsError,
>)
    ensures
        match read_numbers(*form) {
            Err(e) => res == Err::<Settings, SettingsError>(e),
            Ok(_) => res matches Ok(s) && settings_of(*form, s),
        },
        res matches Ok(s) ==> {
            &&& s.stylus_simulation == form.stylus_simulation
            &&& s.faster_capture == form.faster_capture
            &&& s.capture_cursor == form.capture_cursor
            &&& s.enable_mouse == form.enable_mouse
            &&& s.enable_stylus == form.enable_stylus
            &&& s.enable_touch == form.enable_touch
            &&& (s.password is None <==> form.password@.len() == 0)
            &&& s.password matches Some(p) ==> p@ == form.password@
        },
{
    let password = password_from_field(form.password.as_str());
    let ip = match parse_ip_address(form.bind_address.as_str()) {
        None => return Err(SettingsError::BindAddress),
        Some(ip) => ip,
    };
    let web_port = match parse_u16(form.web_port.as_str()) {
        Ok(v) => v,
        Err(e) => return Err(SettingsError::WebPort(e)),
    };
    let pointer_port = match parse_u16(form.pointer_port.as_str()) {
        Ok(v) => v,
        Err(e) => return Err(SettingsError::PointerPort(e)),
    };
    let video_port = match parse_u16(form.video_port.as_str()) {
        Ok(v) => v,
        Err(e) => return Err(SettingsError::VideoPort(e)),
    };
    let limit = match parse_u64(form.screen_update_limit.as_str()) {
        Ok(v) => v,
        Err(e) => return Err(SettingsError::ScreenUpdateLimit(e)),
    };
    Ok(
        Settings {
            password,
            bind: ip,
            web_port,
            pointer_port,
            video_port,
            screen_update_interval_ms: limit,
            stylus_simulation: form.stylus_simulation,
            faster_capture: form.faster_capture,
            capture_cursor: form.capture_cursor,
            enable_mouse: form.enable_mouse,
            enable_stylus: form.enable_stylus,
            enable_touch: form.enable_touch,
        },
    )
}

impl Settings {
    /// The address the web server listens on.
    pub fn web_address(&self) -> (res: SocketAddress)
        ensures
            res == (SocketAddress { ip: self.bind, port: self.web_port }),
    {
        SocketAddress { ip: self.bind, port: self.web_port }
    }

    /// The address the websocket server for pointer events listens on.
    pub fn pointer_address(&self) -> (res: SocketAddress)
        ensures
            res == (SocketAddress { ip: self.bind, port: self.pointer_port }),
    {
        SocketAddress { ip: self.bind, port: self.pointer_port }
    }

    /// The address the websocket server for the video stream listens on.
    pub fn video_address(&self) -> (res: SocketAddress)
        ensures
            res == (SocketAddress { ip: self.bind, port: self.video_port }),
    {
        SocketAddress { ip: self.bind, port: self.video_port }
    }
}

/// The form as the window first shows it on `platform`: no password, bind
/// address `0.0.0.0`, web port 1701, websocket ports 9001 and 9002, no limit
/// on screen updates, every input method enabled; stylus simulation and the
/// better screen capturing checked on Linux only, the cursor not captured.
pub fn default_form(platform: Platform) -> (res: FormValues)
    ensures
        res.password@ == Seq::<char>::empty(),
        res.bind_address@ == "0.0.0.0"@,
        res.web_port@ == "1701"@,
        res.pointer_port@ == "9001"@,
        res.video_port@ == "9002"@,
        res.screen_update_limit@ == "0"@,
        res.stylus_simulation == (platform == Platform::Linux),
        res.faster_capture == (platform == Platform::Linux),
        !res.capture_cursor,
        res.enable_mouse,
        res.enable_stylus,
        res.enable_touch,
{
    let linux = match platform {
        Platform::Linux => true,
        _ => false,
    };
    FormValues {
        password: String::new(),
        bind_address: "0.0.0.0".to_owned(),
        web_port: "1701".to_owned(),
        pointer_port: "9001".to_owned(),
        video_port: "9002".to_owned(),
        screen_update_limit: "0".to_owned(),
        stylus_simulation: linux,
        faster_capture: linux,
        capture_cursor: false,
        enable_mouse: true,
        enable_stylus: true,
        enable_touch: true,
    }
}

/// Which of the form's optional controls can be used.
#[derive(Debug, Clone, Copy, PartialEq, Eq, Structural)]
pub struct ControlAvailability {
    /// The stylus and touch simulation check box.
    pub stylus_simulation: bool,
    /// The better screen capturing check box.
    pub faster_capture: bool,
    /// The capture cursor check box, the capture target choice and its
    /// refresh button.
    pub capture_target: bool,
}

/// Which optional controls can be used on `platform` while the better
/// screen capturing box is `faster_capture_checked`: all of them on Linux,
/// the capture target controls only while the better capturing is checked;
/// none elsewhere.
pub fn control_availability(platform: Platform, faster_capture_checked: bool) -> (res:
    ControlAvailability)
    ensures
        res.stylus_simulation == (platform == Platform::Linux),
        res.faster_capture == (platform == Platform::Linux),
        res.capture_target == (platform == Platform::Linux && faster_capture_checked),
{
    match platform {
        Platform::Linux => ControlAvailability {
            stylus_simulation: true,
            faster_capture: true,
            capture_target: faster_capture_checked,
        },
        _ => ControlAvailability {
            stylus_simulation: false,
            faster_capture: false,
            capture_target: false,
        },
    }
}

/// Whether starting the servers first resets the capture target to the
/// first one offered: so it is where the better capturing is off.
pub fn resets_capture_target(settings: &Settings) -> (res: bool)
    ensures
        res == !settings.faster_capture,
{
    !settings.faster_capture
}

/// The form as first shown is accepted whatever the platform: bind address
/// `0.0.0.0`, web port 1701, websocket ports 9001 and 9002, no limit on
/// screen updates.
pub proof fn law_default_form_is_accepted(form: FormValues)
    requires
        form.bind_address@ == "0.0.0.0"@,
        form.web_port@ == "1701"@,
        form.pointer_port@ == "9001"@,
        form.video_port@ == "9002"@,
        form.screen_update_limit@ == "0"@,
    ensures
        read_numbers(form) == Ok::<(IpAddress, int, int, int, int), SettingsError>(
            (IpAddress::V4(0, 0, 0, 0), 1701, 9001, 9002, 0),
        ),
{
    crate::ip_parse::lemma_parse_any_ipv4();
    reveal_strlit("1701");
    reveal_strlit("9001");
    reveal_strlit("9002");
    reveal_strlit("0");
    reveal_with_fuel(crate::number::scan_digits, 5);
    assert(parse_unsigned("1701"@, u16::MAX as int) == Ok::<int, IntErrorKind>(1701));
    assert(parse_unsigned("9001"@, u16::MAX as int) == Ok::<int, IntErrorKind>(9001));
    assert(parse_unsigned("9002"@, u16::MAX as int) == Ok::<int, IntErrorKind>(9002));
    assert(parse_unsigned("0"@, u64::MAX as int) == Ok::<int, IntErrorKind>(0));
}

/// Settings read from a form carry each check box of the form unchanged,
/// each to the setting of the same name, the password field's text, and the
/// ports and interval the fields hold in decimal.
pub proof fn law_settings_follow_the_form(form: FormValues, settings: Settings)
    requires
        settings_of(form, settings),
    ensures
        settings.stylus_simulation == form.stylus_simulation,
        settings.faster_capture == form.faster_capture,
        settings.capture_cursor == form.capture_cursor,
        settings.enable_mouse == form.enable_mouse,
        settings.enable_stylus == form.enable_stylus,
        settings.enable_touch == form.enable_touch,
        settings.password is None <==> form.password@.len() == 0,
        settings.password matches Some(p) ==> p@ == form.password@,
        parse_unsigned(form.web_port@, u16::MAX as int) == Ok::<int, IntErrorKind>(
            settings.web_port as int,
        ),
        parse_unsigned(form.pointer_port@, u16::MAX as int) == Ok::<int, IntErrorKind>(
            settings.pointer_port as int,
        ),
        parse_unsigned(form.video_port@, u16::MAX as int) == Ok::<int, IntErrorKind>(
            settings.video_port as int,
        ),
        parse_unsigned(form.screen_update_limit@, u64::MAX as int) == Ok::<int, IntErrorKind>(
            settings.screen_update_interval_ms as int,
        ),
        parse_ip(form.bind_address@) == Some(settings.bind),
{
}

} // verus!
