use vstd::prelude::*;
use crate::address::SocketAddress;
use crate::text::{socket_address_text, socket_text};

verus! {

/// The characters that the capture target menu reads as markup.
pub open spec fn is_menu_markup(c: char) -> bool {
    c == '\\' || c == '/' || c == '_' || c == '&'
}

/// How one character of a name stands in the menu: markup characters behind
/// a backslash, others as they are.
pub open spec fn escaped_char(c: char) -> Seq<char> {
    if is_menu_markup(c) {
        seq!['\\', c]
    } else {
        seq![c]
    }
}

/// A name with every markup character escaped.
pub open spec fn escaped_name(name: Seq<char>) -> Seq<char>
    decreases name.len(),
{
    if name.len() == 0 {
        Seq::empty()
    } else {
        escaped_name(name.drop_last()) + escaped_char(name.last())
    }
}

/// The most characters of an escaped name the menu shows.
pub open spec fn menu_label_limit() -> nat {
    32
}

/// The menu entry of a capture target named `name`: the escaped name, cut
/// after its first 32 characters and followed by `...` where it is longer.
pub open spec fn menu_label_of(name: Seq<char>) -> Seq<char> {
    let e = escaped_name(name);
    if e.len() > menu_label_limit() {
        e.take(menu_label_limit() as int) + seq!['.', '.', '.']
    } else {
        e
    }
}

/// Appends a character to a string.
///
/// Calls `String::push`, which appends `c` at the end of `s`.
#[verifier::external_body]
pub(crate) fn push_char(s: &mut String, c: char)
    ensures
        final(s)@ == old(s)@.push(c),
{
    s.push(c)
}

/// Escapes the markup characters of `name`.
pub fn escape_name(name: &str) -> (res: String)
    ensures
        res@ == escaped_name(name@),
{
    let n = name.unicode_len();
    let mut res = String::new();
    let mut i: usize = 0;
    proof {
        assert(name@.take(0) =~= Seq::<char>::empty());
    }
    while i < n
        invariant
            n == name@.len(),
            0 <= i <= n,
            res@ == escaped_name(name@.take(i as int)),
        decreases n - i,
    {
        let c = name.get_char(i);
        proof {
            assert(name@.take(i + 1).drop_last() =~= name@.take(i as int));
            assert(name@.take(i + 1).last() == c);
        }
        if c == '\\' || c == '/' || c == '_' || c == '&' {
            push_char(&mut res, '\\');
        }
        push_char(&mut res, c);
        proof {
            assert(res@ =~= escaped_name(name@.take(i + 1)));
        }
        i = i + 1;
    }
    proof {
        assert(name@.take(n as int) =~= name@);
    }
    res
}

/// The menu entry of the capture target named `name`.
pub fn menu_label(name: &str) -> (res: String)
    ensures
        res@ == menu_label_of(name@),
{
    let escaped = escape_name(name);
    let n = escaped.as_str().unicode_len();
    if n > 32 {
        let head = escaped.as_str().substring_char(0, 32);
        let label = head.to_owned();
        let res = label.concat("...");
        proof {
            reveal_strlit("...");
            assert(res@ =~= menu_label_of(name@));
        }
        res
    } else {
        escaped
    }
}

/// A menu entry never holds more than 35 characters, and a name whose
/// escaped form fits in 32 is shown whole.
pub proof fn law_menu_label_is_short(name: Seq<char>)
    ensures
        menu_label_of(name).len() <= menu_label_limit() + 3,
        escaped_name(name).len() <= menu_label_limit() ==> menu_label_of(name)
            == escaped_name(name),
{
}

/// Escaping keeps every character and puts a backslash before each markup
/// character: the escaped name is as long as the name and its markup
/// characters together.
pub proof fn law_escape_adds_one_char_per_markup(name: Seq<char>)
    ensures
        escaped_name(name).len() == name.len() + name.filter(|c: char| is_menu_markup(c)).len(),
    decreases name.len(),
{
    reveal_with_fuel(Seq::filter, 1);
    if name.len() > 0 {
        law_escape_adds_one_char_per_markup(name.drop_last());
    }
}

/// The title of the QR code popup, naming the server's address.
pub fn qr_window_title(address: &SocketAddress) -> (res: String)
    ensures
        res@ == "Weylus - QR Code for: "@ + socket_text(*address),
{
    let text = socket_address_text(address);
    "Weylus - QR Code for: ".to_owned().concat(text.as_str())
}

/// The title of the main window, naming the program's version.
pub fn main_window_title(version: &str) -> (res: String)
    ensures
        res@ == "Weylus - "@ + version@,
{
    "Weylus - ".to_owned().concat(version)
}

/// The capture target menu after a refresh: one entry per target, in order,
/// and whether the first target becomes the selected one.
pub struct CaptureMenu {
    pub labels: Vec<String>,
    pub select_first: bool,
}

/// Builds the capture target menu for targets named `names`. Where no target
/// is selected yet, the first one is selected; there must then be one.
pub fn capture_menu(names: &Vec<String>, has_selection: bool) -> (res: CaptureMenu)
    requires
        has_selection || names@.len() > 0,
    ensures
        res.select_first == !has_selection,
        res.labels@.len() == names@.len(),
        forall|i: int| 0 <= i < names@.len() ==> #[trigger] res.labels@[i]@ == menu_label_of(names@[i]@),
{
    let mut labels: Vec<String> = Vec::new();
    let n = names.len();
    let mut i: usize = 0;
    while i < n
        invariant
            n == names@.len(),
            0 <= i <= n,
            labels@.len() == i,
            forall|k: int| 0 <= k < i ==> #[trigger] labels@[k]@ == menu_label_of(names@[k]@),
        decreases n - i,
    {
        labels.push(menu_label(names[i].as_str()));
        i = i + 1;
    }
    CaptureMenu { labels, select_first: !has_selection }
}

} // verus!
