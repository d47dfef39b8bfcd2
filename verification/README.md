# weylus

The decisions behind the Weylus control window, verified with Verus.

- `src/number.rs` reads port numbers and intervals from text fields.
- `src/form.rs` holds the settings form, its defaults, and turns it into the
  settings the servers start with.
- `src/address.rs` chooses the address that browsers are told to connect to.
- `src/ip_parse.rs` reads the bind address field as an IPv4 or IPv6 address.
- `src/text.rs` writes IP and socket addresses as text (dotted IPv4,
  RFC 5952 IPv6 in brackets).
- `src/link.rs` builds the page address and the link with the percent-encoded
  password.
- `src/qr.rs` encodes the link as a QR symbol (`qrcode`), draws it and writes
  it as PNG (`image`).
- `src/labels.rs` escapes and shortens capture target names for the menu, and
  builds window titles.
- `src/geometry.rs` centres the QR popup over the window.
- `src/toggle.rs` is the start/stop state of the servers.

`app/` is the fltk window around the library: widgets, threads, channels,
the list of network interfaces (`pnet`) and the servers it starts.
