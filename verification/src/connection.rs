use vstd::prelude::*;

use crate::text::{decimal, join, join_strings, pad_right, pad_to, push_decimal, repeat, repeat_str};

verus! {

/// A rectangle on the terminal.
#[derive(Debug, Clone, Copy, PartialEq, Eq, Structural, Default)]
pub struct Rect {
    pub x: u16,
    pub y: u16,
    pub width: u16,
    pub height: u16,
}

/// `a - b`, or 0 when `b` is larger.
pub open spec fn sat_sub(a: int, b: int) -> int {
    if a > b {
        a - b
    } else {
        0
    }
}

/// The width that `width_percent` percent of `area_width` gives, the product saturating at
/// the largest `u16`.
pub open spec fn percent_width(area_width: u16, width_percent: u16) -> int {
    let product = area_width * width_percent;
    (if product > u16::MAX {
        u16::MAX as int
    } else {
        product
    }) / 100
}

/// The rectangle of `width_percent` percent of the width of `area` and `height` rows (at
/// most those of `area`), centred in `area`.
pub open spec fn centered(area: Rect, width_percent: u16, height: u16) -> Rect {
    let width = percent_width(area.width, width_percent);
    let h = if height < area.height {
        height
    } else {
        area.height
    };
    Rect {
        x: (area.x + sat_sub(area.width as int, width) / 2) as u16,
        y: (area.y + sat_sub(area.height as int, h as int) / 2) as u16,
        width: width as u16,
        height: h,
    }
}

/// The rectangle of a dialog centred in `area` (see [`centered`]).
pub fn centered_rect(area: Rect, width_percent: u16, height: u16) -> (r: Rect)
    requires
        area.x + sat_sub(area.width as int, percent_width(area.width, width_percent)) / 2
            <= u16::MAX,
        area.y + sat_sub(
            area.height as int,
            (if height < area.height {
                height
            } else {
                area.height
            }) as int,
        ) / 2 <= u16::MAX,
    ensures
        r == centered(area, width_percent, height),
{
    let w: u32 = area.width as u32;
    let p: u32 = width_percent as u32;
    assert(w * p <= 65535 * 65535) by (nonlinear_arith)
        requires
            w <= 65535,
            p <= 65535,
    ;
    let product: u32 = w * p;
    let saturated: u32 = if product > 65535 {
        65535
    } else {
        product
    };
    let width: u16 = (saturated / 100) as u16;
    let height: u16 = if height < area.height {
        height
    } else {
        area.height
    };
    Rect {
        x: area.x + area.width.saturating_sub(width) / 2,
        y: area.y + area.height.saturating_sub(height) / 2,
        width,
        height,
    }
}

/// Whether [`centered_rect`] can place a dialog in `area` without leaving the coordinate
/// range.
pub fn centered_rect_fits(area: Rect, width_percent: u16, height: u16) -> (r: bool)
    ensures
        r == (area.x + sat_sub(area.width as int, percent_width(area.width, width_percent)) / 2
            <= u16::MAX && area.y + sat_sub(
            area.height as int,
            (if height < area.height {
                height
            } else {
                area.height
            }) as int,
        ) / 2 <= u16::MAX),
{
    let w: u32 = area.width as u32;
    let p: u32 = width_percent as u32;
    assert(w * p <= 65535 * 65535) by (nonlinear_arith)
        requires
            w <= 65535,
            p <= 65535,
    ;
    let product: u32 = w * p;
    let saturated: u32 = if product > 65535 {
        65535
    } else {
        product
    };
    let width: u32 = saturated / 100;
    let h: u32 = if height < area.height {
        height as u32
    } else {
        area.height as u32
    };
    let dx: u32 = if w > width {
        (w - width) / 2
    } else {
        0
    };
    let dy: u32 = (area.height as u32 - h) / 2;
    area.x as u32 + dx <= 65535 && area.y as u32 + dy <= 65535
}

/// Where closing all connections stands.
#[derive(Debug, Clone, PartialEq, Eq)]
pub enum ConnectionCloseState {
    Idle,
    Confirming { count: usize },
    Closing { count: usize },
    Result { count: usize, error: Option<String> },
}

/// The colour of a dialog.
#[derive(Debug, Clone, Copy, PartialEq, Eq, Structural)]
pub enum DialogColor {
    Yellow,
    LightBlue,
    Green,
    Red,
}

/// A dialog: its title, its text and its colour.
#[derive(Debug, Clone, PartialEq, Eq)]
pub struct CloseDialog {
    pub title: String,
    pub content: String,
    pub color: DialogColor,
}

/// The dialog that the connection page shows over the list while connections are being
/// closed: nothing when idle.
pub open spec fn close_dialog_text(state: ConnectionCloseState) -> Option<
    (Seq<char>, Seq<char>, DialogColor),
> {
    match state {
        ConnectionCloseState::Idle => None,
        ConnectionCloseState::Confirming { count } => Some(
            (
                " Close all connections? "@,
                "Close all "@ + decimal(count as nat)
                    + " active connections?\n\n[Y] Confirm    [N] / [Esc] Cancel"@,
                DialogColor::Yellow,
            ),
        ),
        ConnectionCloseState::Closing { count } => Some(
            (
                " Closing connections "@,
                "Closing all "@ + decimal(count as nat) + " active connections..."@,
                DialogColor::LightBlue,
            ),
        ),
        ConnectionCloseState::Result { count, error: None } => Some(
            (
                " Connections closed "@,
                "Closed "@ + decimal(count as nat)
                    + " connections.\n\n[Enter] [Space] [Esc] Dismiss"@,
                DialogColor::Green,
            ),
        ),
        ConnectionCloseState::Result { count, error: Some(error) } => Some(
            (
                " Could not close connections "@,
                "Could not close "@ + decimal(count as nat) + " connections:\n"@ + error@
                    + "\n\n[Enter] [Space] [Esc] Dismiss"@,
                DialogColor::Red,
            ),
        ),
    }
}

/// Whether the connection page shows a dialog over the list.
pub fn shows_close_dialog(state: &ConnectionCloseState) -> (r: bool)
    ensures
        r == !(*state is Idle),
{
    !matches!(state, ConnectionCloseState::Idle)
}

/// The dialog for `state` (see [`close_dialog_text`]).
pub fn close_dialog(state: &ConnectionCloseState) -> (r: Option<CloseDialog>)
    ensures
        match (r, close_dialog_text(*state)) {
            (Some(d), Some((title, content, color))) => d.title@ == title && d.content@
                == content && d.color == color,
            (None, None) => true,
            _ => false,
        },
{
    match state {
        ConnectionCloseState::Idle => None,
        ConnectionCloseState::Confirming { count } => {
            let mut content = String::from_str("Close all ");
            push_decimal(&mut content, *count as u64);
            content.append(" active connections?\n\n[Y] Confirm    [N] / [Esc] Cancel");
            Some(
                CloseDialog {
                    title: String::from_str(" Close all connections? "),
                    content,
                    color: DialogColor::Yellow,
                },
            )
        },
        ConnectionCloseState::Closing { count } => {
            let mut content = String::from_str("Closing all ");
            push_decimal(&mut content, *count as u64);
            content.append(" active connections...");
            Some(
                CloseDialog {
                    title: String::from_str(" Closing connections "),
                    content,
                    color: DialogColor::LightBlue,
                },
            )
        },
        ConnectionCloseState::Result { count, error: None } => {
            let mut content = String::from_str("Closed ");
            push_decimal(&mut content, *count as u64);
            content.append(" connections.\n\n[Enter] [Space] [Esc] Dismiss");
            Some(
                CloseDialog {
                    title: String::from_str(" Connections closed "),
                    content,
                    color: DialogColor::Green,
                },
            )
        },
        ConnectionCloseState::Result { count, error: Some(error) } => {
            let mut content = String::from_str("Could not close ");
            push_decimal(&mut content, *count as u64);
            content.append(" connections:\n");
            content.append(error.as_str());
            content.append("\n\n[Enter] [Space] [Esc] Dismiss");
            Some(
                CloseDialog {
                    title: String::from_str(" Could not close connections "),
                    content,
                    color: DialogColor::Red,
                },
            )
        },
    }
}

/// Where a connection goes and comes from.
#[derive(Debug, Clone, PartialEq, Eq)]
pub struct ConnectionMetadata {
    pub host: String,
    pub destination_ip: String,
    pub destination_port: String,
    pub source_ip: String,
    pub source_port: String,
}

/// A connection that the controller tracks.
#[derive(Debug, Clone, PartialEq, Eq)]
pub struct Connection {
    pub id: String,
    pub metadata: ConnectionMetadata,
    pub upload: u64,
    pub download: u64,
    /// When the connection started, as the controller wrote it.
    pub start: String,
    pub chains: Vec<String>,
    pub rule: String,
}

/// A connection with its current speeds, in bytes per second.
#[derive(Debug, Clone, PartialEq, Eq)]
pub struct ConnectionWithSpeed {
    pub connection: Connection,
    pub download: Option<u64>,
    pub upload: Option<u64>,
}

/// The columns of a connection's line in the list, each padded to its width.
#[derive(Debug, Clone, PartialEq, Eq)]
pub struct ConnectionRow {
    pub host: String,
    pub download: String,
    pub download_speed: String,
    pub upload: String,
    pub upload_speed: String,
    pub rule: String,
    pub source: String,
    pub dash: String,
    pub destination: String,
    pub chains: String,
}

/// Whether `text` is a text that `bytesize` writes for `bytes` in binary units.
pub uninterp spec fn bytesize_text(bytes: u64, text: Seq<char>) -> bool;

/// A binary unit prefix as `bytesize` writes it.
pub open spec fn unit_prefix(c: char) -> bool {
    c == 'k' || c == 'M' || c == 'G' || c == 'T' || c == 'P' || c == 'E'
}

/// A number below 100 written with at least two digits.
pub open spec fn two_digits(n: nat) -> Seq<char> {
    if n < 10 {
        "0"@ + decimal(n)
    } else {
        decimal(n)
    }
}

/// An elapsed time as hours, minutes and seconds ("h:mm:ss"); a negative time counts as zero.
pub open spec fn hms_text(seconds: i64) -> Seq<char> {
    let s: nat = if seconds < 0 {
        0
    } else {
        seconds as nat
    };
    decimal(s / 3600) + ":"@ + two_digits((s / 60) % 60) + ":"@ + two_digits(s % 60)
}

/// Writes an elapsed time as "h:mm:ss".
pub fn hms(seconds: i64) -> (r: String)
    ensures
        r@ == hms_text(seconds),
{
    let s: u64 = if seconds < 0 {
        0
    } else {
        seconds as u64
    };
    let mut r = String::new();
    push_decimal(&mut r, s / 3600);
    r.append(":");
    let m = (s / 60) % 60;
    if m < 10 {
        r.append("0");
    }
    push_decimal(&mut r, m);
    r.append(":");
    let sec = s % 60;
    if sec < 10 {
        r.append("0");
    }
    push_decimal(&mut r, sec);
    r
}

/// What holds of every text that `bytesize` writes for `bytes` in binary units: a count
/// under 1024 is the number followed by " B"; a larger one ends in a space, a unit prefix
/// and "iB".
pub open spec fn size_text_fits(bytes: u64, text: Seq<char>) -> bool {
    &&& bytesize_text(bytes, text)
    &&& bytes < 1024 ==> text == decimal(bytes as nat) + " B"@
    &&& bytes >= 1024 ==> {
        &&& text.len() >= 4
        &&& text[text.len() - 4] == ' '
        &&& unit_prefix(text[text.len() - 3])
        &&& text[text.len() - 2] == 'i'
        &&& text[text.len() - 1] == 'B'
    }
}

/// Calls `bytesize::ByteSize(bytes).to_string_as(true)`. The contract claims that the text
/// is one that bytesize writes for `bytes` (a relation, not a function: two calls need not
/// agree), and what the crate's `to_string` shows of every outcome: a count under 1024 is
/// the number followed by " B"; a larger one is `{:.1} {prefix}iB` with a prefix from
/// "kMGTPE". Which prefix and digits a larger count gets goes through `f64::ln`, whose
/// precision std leaves open, and is left unsaid.
#[verifier::external_body]
fn human_size(bytes: u64) -> (r: String)
    ensures
        bytesize_text(bytes, r@),
        size_text_fits(bytes, r@),
{
    bytesize::ByteSize(bytes).to_string_as(true)
}

/// Number of line chars between the two ends of the address column: what is left of 44
/// bytes after both ends, and at least one.
pub open spec fn dash_count(source: Seq<char>, destination: Seq<char>) -> nat {
    let used = vstd::utf8::encode_utf8(source).len() + vstd::utf8::encode_utf8(destination).len();
    if used >= 43 {
        1
    } else {
        (44 - used) as nat
    }
}

/// The source end of the address column.
pub open spec fn source_text(m: ConnectionMetadata) -> Seq<char> {
    m.source_ip@ + ":"@ + m.source_port@ + " "@
}

/// The destination end of the address column: "?" for an unknown address; the port shown
/// is the source port.
pub open spec fn destination_text(m: ConnectionMetadata) -> Seq<char> {
    " "@ + (if m.destination_ip@.len() == 0 {
        "?"@
    } else {
        m.destination_ip@
    }) + ":"@ + m.source_port@
}

/// The line of `c`, given the size texts of its download and upload totals and speeds.
pub open spec fn row_matches(
    r: ConnectionRow,
    c: ConnectionWithSpeed,
    download: Seq<char>,
    upload: Seq<char>,
    download_speed: Seq<char>,
    upload_speed: Seq<char>,
) -> bool {
    let m = c.connection.metadata;
    &&& r.host@ == pad_right(m.host@ + ":"@ + m.destination_port@, 45)
    &&& r.download@ == pad_right(download, 12)
    &&& r.download_speed@ == pad_right(download_speed + "/s"@, 12)
    &&& r.upload@ == pad_right(upload, 12)
    &&& r.upload_speed@ == pad_right(upload_speed + "/s"@, 12)
    &&& r.rule@ == pad_right(c.connection.rule@, 15)
    &&& r.source@ == source_text(m)
    &&& r.destination@ == destination_text(m)
    &&& r.dash@ == repeat("\u{2500}"@, dash_count(source_text(m), destination_text(m)))
    &&& r.chains@ == join(c.connection.chains@.map_values(|p: String| p@), " - "@)
}

/// `s` padded to `width` chars.
fn padded(s: &str, width: usize) -> (r: String)
    ensures
        r@ == pad_right(s@, width as nat),
{
    let mut r = String::from_str(s);
    pad_to(&mut r, width);
    r
}

/// The line of `c`, given the size texts of its download and upload totals and of its
/// download and upload speeds.
pub fn connection_row_from(
    c: &ConnectionWithSpeed,
    download: &str,
    upload: &str,
    download_speed: &str,
    upload_speed: &str,
) -> (r: ConnectionRow)
    ensures
        row_matches(r, *c, download@, upload@, download_speed@, upload_speed@),
{
    let m = &c.connection.metadata;
    let mut host = String::from_str(m.host.as_str());
    host.append(":");
    host.append(m.destination_port.as_str());
    pad_to(&mut host, 45);
    let mut dl_speed = String::from_str(download_speed);
    dl_speed.append("/s");
    pad_to(&mut dl_speed, 12);
    let mut up_speed = String::from_str(upload_speed);
    up_speed.append("/s");
    pad_to(&mut up_speed, 12);
    let mut source = String::from_str(m.source_ip.as_str());
    source.append(":");
    source.append(m.source_port.as_str());
    source.append(" ");
    let mut destination = String::from_str(" ");
    if m.destination_ip.as_str().is_empty() {
        destination.append("?");
    } else {
        destination.append(m.destination_ip.as_str());
    }
    destination.append(":");
    destination.append(m.source_port.as_str());
    let used: u128 = source.as_str().as_bytes().len() as u128 + destination.as_str().as_bytes().len() as u128;
    let count: usize = if used >= 43 {
        1
    } else {
        (44 - used) as usize
    };
    let dash = repeat_str("\u{2500}", count);
    let chains = join_strings(&c.connection.chains, " - ");
    ConnectionRow {
        host,
        download: padded(download, 12),
        download_speed: dl_speed,
        upload: padded(upload, 12),
        upload_speed: up_speed,
        rule: padded(c.connection.rule.as_str(), 15),
        source,
        dash,
        destination,
        chains,
    }
}

/// The line of `c` in the connection list; sizes are written by `bytesize` in binary units,
/// a missing speed as zero. Whatever texts `bytesize` gives, the line is built from them as
/// [`connection_row_from`] says.
pub fn connection_row(c: &ConnectionWithSpeed) -> (r: ConnectionRow)
    ensures
        exists|dl: Seq<char>, up: Seq<char>, dls: Seq<char>, ups: Seq<char>|
            #![trigger row_matches(r, *c, dl, up, dls, ups)]
            {
                &&& size_text_fits(c.connection.download, dl)
                &&& size_text_fits(c.connection.upload, up)
                &&& size_text_fits(
                    match c.download {
                        Some(d) => d,
                        None => 0,
                    },
                    dls,
                )
                &&& size_text_fits(
                    match c.upload {
                        Some(u) => u,
                        None => 0,
                    },
                    ups,
                )
                &&& row_matches(r, *c, dl, up, dls, ups)
            },
{
    let dl = human_size(c.connection.download);
    let up = human_size(c.connection.upload);
    let dl_speed = human_size(
        match c.download {
            Some(d) => d,
            None => 0,
        },
    );
    let up_speed = human_size(
        match c.upload {
            Some(u) => u,
            None => 0,
        },
    );
    let r = connection_row_from(c, dl.as_str(), up.as_str(), dl_speed.as_str(), up_speed.as_str());
    assert(row_matches(r, *c, dl@, up@, dl_speed@, up_speed@));
    r
}

/// A dialog of at most the full width fits inside the area it is centred in.
pub proof fn lemma_centered_inside(area: Rect, width_percent: u16, height: u16)
    requires
        width_percent <= 100,
        area.x + area.width <= u16::MAX,
        area.y + area.height <= u16::MAX,
    ensures
        ({
            let r = centered(area, width_percent, height);
            &&& area.x <= r.x
            &&& r.x + r.width <= area.x + area.width
            &&& area.y <= r.y
            &&& r.y + r.height <= area.y + area.height
        }),
{
    let w = area.width;
    let p = width_percent;
    assert(w * p <= w * 100) by (nonlinear_arith)
        requires
            p <= 100,
    ;
    assert(percent_width(w, p) <= w);
}

} // verus!
