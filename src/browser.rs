use vstd::prelude::*;
use vstd::string::StrSliceExecFns;
use crate::display::{byte_len, minus_or_zero, push_spaces, spaces, text_byte_len};

verus! {

/// How far the details pane scrolls at most.
pub const MAX_SCROLL_LIMIT: u16 = 50;

/// How many rows a page key moves the selection.
pub const PAGE_SIZE: usize = 10;

/// The keys that the interactive browser tells apart.
#[derive(Debug, Clone, Copy, PartialEq, Eq, Structural)]
pub enum BrowserKey {
    /// `q` or Escape.
    Quit,
    Tab,
    Up,
    Down,
    PageUp,
    PageDown,
    /// `t`: leave for the text view.
    TextMode,
    Other,
}

/// What the browser does after a key.
#[derive(Debug, Clone, Copy, PartialEq, Eq, Structural)]
pub enum BrowserAction {
    /// Draw again and wait for the next key.
    Continue,
    /// Restore the terminal and stop.
    Quit,
    /// Restore the terminal and print the text view instead.
    SwitchToText,
}

/// The state of the interactive browser over a list of rows: the selected
/// row, how far the details pane is scrolled, and whether the arrow keys
/// scroll the details pane instead of moving the selection.
#[derive(Debug, Clone, Copy, PartialEq, Eq, Structural)]
pub struct BrowserState {
    pub selected: usize,
    pub details_scroll: u16,
    pub details_active: bool,
}

impl BrowserState {
    /// The first row selected, the details pane at its top and inactive.
    pub fn new() -> (r: BrowserState)
        ensures
            r == (BrowserState { selected: 0, details_scroll: 0, details_active: false }),
    {
        BrowserState { selected: 0, details_scroll: 0, details_active: false }
    }
}

/// The state and action that follow `key` in state `s` over `count` rows.
pub open spec fn next_state(s: BrowserState, key: BrowserKey, count: nat) -> (BrowserState, BrowserAction) {
    match key {
        BrowserKey::Quit => (s, BrowserAction::Quit),
        BrowserKey::TextMode => (s, BrowserAction::SwitchToText),
        BrowserKey::Tab => (BrowserState { details_active: !s.details_active, ..s }, BrowserAction::Continue),
        BrowserKey::Up => if s.details_active {
            (BrowserState { details_scroll: if s.details_scroll > 0 { (s.details_scroll - 1) as u16 } else { 0 }, ..s }, BrowserAction::Continue)
        } else {
            (BrowserState { selected: if s.selected > 0 { (s.selected - 1) as usize } else { 0 }, ..s }, BrowserAction::Continue)
        },
        BrowserKey::Down => if s.details_active {
            (BrowserState {
                details_scroll: if s.details_scroll < MAX_SCROLL_LIMIT { (s.details_scroll + 1) as u16 } else { s.details_scroll },
                ..s
            }, BrowserAction::Continue)
        } else {
            (BrowserState { selected: if s.selected + 1 < count { (s.selected + 1) as usize } else { s.selected }, ..s }, BrowserAction::Continue)
        },
        BrowserKey::PageUp => if s.details_active {
            (s, BrowserAction::Continue)
        } else {
            (BrowserState { selected: if s.selected > PAGE_SIZE { (s.selected - PAGE_SIZE) as usize } else { 0 }, ..s }, BrowserAction::Continue)
        },
        BrowserKey::PageDown => if s.details_active {
            (s, BrowserAction::Continue)
        } else {
            (BrowserState {
                selected: if s.selected + PAGE_SIZE < count - 1 { (s.selected + PAGE_SIZE) as usize } else { (count - 1) as usize },
                ..s
            }, BrowserAction::Continue)
        },
        BrowserKey::Other => (s, BrowserAction::Continue),
    }
}

/// Decides what a key does in the browser over `count` rows: Tab switches
/// the arrow keys between the list and the details pane; the arrows move the
/// selection by one row, or scroll the details pane by one line within its
/// limit; the page keys move the selection by a page while the list is
/// active; `q` and Escape quit; `t` switches to the text view.
pub fn browser_step(s: BrowserState, key: BrowserKey, count: usize) -> (r: (BrowserState, BrowserAction))
    requires
        count > 0,
        s.selected < count,
    ensures
        r == next_state(s, key, count as nat),
        r.0.selected < count,
{
    match key {
        BrowserKey::Quit => (s, BrowserAction::Quit),
        BrowserKey::TextMode => (s, BrowserAction::SwitchToText),
        BrowserKey::Tab => (BrowserState { details_active: !s.details_active, ..s }, BrowserAction::Continue),
        BrowserKey::Up => if s.details_active {
            let scroll = if s.details_scroll > 0 { s.details_scroll - 1 } else { 0 };
            (BrowserState { details_scroll: scroll, ..s }, BrowserAction::Continue)
        } else {
            let selected = if s.selected > 0 { s.selected - 1 } else { 0 };
            (BrowserState { selected, ..s }, BrowserAction::Continue)
        },
        BrowserKey::Down => if s.details_active {
            let scroll = if s.details_scroll < MAX_SCROLL_LIMIT { s.details_scroll + 1 } else { s.details_scroll };
            (BrowserState { details_scroll: scroll, ..s }, BrowserAction::Continue)
        } else {
            let selected = if s.selected + 1 < count { s.selected + 1 } else { s.selected };
            (BrowserState { selected, ..s }, BrowserAction::Continue)
        },
        BrowserKey::PageUp => if s.details_active {
            (s, BrowserAction::Continue)
        } else {
            let selected = if s.selected > PAGE_SIZE { s.selected - PAGE_SIZE } else { 0 };
            (BrowserState { selected, ..s }, BrowserAction::Continue)
        },
        BrowserKey::PageDown => if s.details_active {
            (s, BrowserAction::Continue)
        } else {
            let last = count - 1;
            let selected = if s.selected < last && last - s.selected > PAGE_SIZE { s.selected + PAGE_SIZE } else { last };
            (BrowserState { selected, ..s }, BrowserAction::Continue)
        },
        BrowserKey::Other => (s, BrowserAction::Continue),
    }
}

// ---------------------------------------------------------------------------
// Layout of the list rows
// ---------------------------------------------------------------------------

/// The date format of the list and the width it takes, by terminal width.
pub open spec fn date_layout(terminal_width: nat) -> (Seq<char>, nat) {
    if terminal_width < 80 {
        ("%m-%d %H:%M"@, 11)
    } else if terminal_width < 100 {
        ("%Y-%m-%d %H:%M"@, 16)
    } else {
        ("%Y-%m-%d %H:%M:%S"@, 19)
    }
}

/// The width left for names in a list area this wide, once the borders,
/// the date, the gaps and the selection mark are taken; at least eight.
pub open spec fn name_width(list_width: nat, date_width: nat) -> nat {
    let w = minus_or_zero(minus_or_zero(list_width as int, 2) as int, (date_width + 9) as int);
    if w > 8 {
        w
    } else {
        8
    }
}

/// A name fitted into `width` bytes: a longer name keeps its first
/// `width - 3` characters and ends in `...` (its first `width` characters
/// where that is at most three).
pub open spec fn fitted_name(name: Seq<char>, width: nat) -> Seq<char> {
    if byte_len(name) > width {
        if width > 3 {
            name.subrange(0, if (width - 3) < name.len() { width - 3 } else { name.len() as int }) + "..."@
        } else {
            name.subrange(0, if width < name.len() { width as int } else { name.len() as int })
        }
    } else {
        name
    }
}

/// `t` filled with spaces on the right to `w` characters.
pub open spec fn pad_right(t: Seq<char>, w: nat) -> Seq<char> {
    if t.len() >= w {
        t
    } else {
        t + spaces((w - t.len()) as nat)
    }
}

/// `t` filled with spaces on the left to `w` characters.
pub open spec fn pad_left(t: Seq<char>, w: nat) -> Seq<char> {
    if t.len() >= w {
        t
    } else {
        spaces((w - t.len()) as nat) + t
    }
}

/// What chrono writes, in `format`, for a time that it reads in the form
/// `YYYY-MM-DD HH:MM:SS`; `None` where it does not read it.
pub uninterp spec fn reformatted_date_of(s: Seq<char>, format: Seq<char>) -> Option<Seq<char>>;

/// Relies on `chrono::NaiveDateTime::parse_from_str` with the format
/// `%Y-%m-%d %H:%M:%S`, written again by `format`. Only the three valid
/// formats of the list layout are accepted: chrono fails to write with an
/// invalid one.
#[verifier::external_body]
fn reformat_date(s: &str, format: &str) -> (r: Option<String>)
    requires
        format@ == "%m-%d %H:%M"@ || format@ == "%Y-%m-%d %H:%M"@ || format@ == "%Y-%m-%d %H:%M:%S"@,
    ensures
        r is Some <==> reformatted_date_of(s@, format@) is Some,
        r is Some ==> reformatted_date_of(s@, format@) == Some(r->0@),
{
    match chrono::NaiveDateTime::parse_from_str(s, "%Y-%m-%d %H:%M:%S") {
        Ok(d) => Some(d.format(format).to_string()),
        Err(_) => None,
    }
}

/// The two texts of a list row: the name, fitted and filled to the name
/// width, and the expiry date, in the terminal's date format where it can
/// be read, filled on the left to the date width.
pub open spec fn list_row(name: Seq<char>, valid_until: Seq<char>, terminal_width: nat, list_width: nat) -> (Seq<char>, Seq<char>) {
    let (format, date_width) = date_layout(terminal_width);
    let width = name_width(list_width, date_width);
    let date = match reformatted_date_of(valid_until, format) {
        Some(d) => d,
        None => valid_until,
    };
    let date_room = if byte_len(date) > date_width { byte_len(date) } else { date_width };
    (pad_right(fitted_name(name, width), width), pad_left(date, date_room))
}

fn pad_text_right(t: String, w: usize) -> (r: String)
    ensures
        r@ == pad_right(t@, w as nat),
{
    let n = t.as_str().unicode_len();
    if n >= w {
        t
    } else {
        let mut out = t;
        push_spaces(&mut out, (w - n) as u128);
        out
    }
}

fn pad_text_left(t: String, w: u128) -> (r: String)
    ensures
        r@ == pad_left(t@, w as nat),
{
    let n = t.as_str().unicode_len();
    if n as u128 >= w {
        t
    } else {
        let mut out = String::new();
        push_spaces(&mut out, w - n as u128);
        out.append(t.as_str());
        out
    }
}

/// Lays out one row of the certificate list for the given terminal width
/// and list area width.
pub fn list_row_texts(name: &str, valid_until: &str, terminal_width: u16, list_width: u16) -> (r: (String, String))
    ensures
        (r.0@, r.1@) == list_row(name@, valid_until@, terminal_width as nat, list_width as nat),
{
    let (format, date_width): (&str, usize) = if terminal_width < 80 {
        ("%m-%d %H:%M", 11)
    } else if terminal_width < 100 {
        ("%Y-%m-%d %H:%M", 16)
    } else {
        ("%Y-%m-%d %H:%M:%S", 19)
    };
    let inner: usize = if list_width > 2 { (list_width - 2) as usize } else { 0 };
    let left: usize = if inner > date_width + 9 { inner - (date_width + 9) } else { 0 };
    let width: usize = if left > 8 { left } else { 8 };
    let length = text_byte_len(name);
    let fitted = if length > width as u128 {
        let n = name.unicode_len();
        if width > 3 {
            let take: usize = if width - 3 < n { width - 3 } else { n };
            let mut out = name.substring_char(0, take).to_owned();
            out.append("...");
            out
        } else {
            let take: usize = if width < n { width } else { n };
            name.substring_char(0, take).to_owned()
        }
    } else {
        name.to_owned()
    };
    let date = match reformat_date(valid_until, format) {
        Some(d) => d,
        None => valid_until.to_owned(),
    };
    let date_len = text_byte_len(date.as_str());
    let date_room: u128 = if date_len > date_width as u128 { date_len } else { date_width as u128 };
    (pad_text_right(fitted, width), pad_text_left(date, date_room))
}

} // verus!
