//! The colour themes of the terminal log viewer, and what it draws: the
//! colour of each line, the age of each event, the filter and the titles.
use vstd::prelude::*;
use vstd::string::*;

use crate::text::{contains, decimal, str_contains, u64_to_decimal};

verus! {

/// The two themes.
#[derive(Clone, Copy, Debug, PartialEq, Eq, Structural)]
pub enum ThemeKind {
    Dark,
    Light,
}

/// The colours of a theme, as RGB triples.
#[derive(Clone, Copy, Debug)]
pub struct ThemePalette {
    pub primary: (u8, u8, u8),
    pub success: (u8, u8, u8),
    pub warning: (u8, u8, u8),
    pub error: (u8, u8, u8),
    pub muted: (u8, u8, u8),
    pub accent: (u8, u8, u8),
    pub background: (u8, u8, u8),
    pub surface: (u8, u8, u8),
    pub text: (u8, u8, u8),
}

/// The palette of each theme.
pub open spec fn palette(kind: ThemeKind) -> ThemePalette {
    match kind {
        ThemeKind::Dark => ThemePalette {
            primary: (79, 172, 254),
            success: (34, 197, 94),
            warning: (251, 191, 36),
            error: (239, 68, 68),
            muted: (156, 163, 175),
            accent: (168, 85, 247),
            background: (17, 24, 39),
            surface: (31, 41, 55),
            text: (243, 244, 246),
        },
        ThemeKind::Light => ThemePalette {
            primary: (37, 99, 235),
            success: (22, 163, 74),
            warning: (245, 158, 11),
            error: (220, 38, 38),
            muted: (100, 116, 139),
            accent: (124, 58, 237),
            background: (248, 250, 252),
            surface: (255, 255, 255),
            text: (15, 23, 42),
        },
    }
}

pub fn get_theme(kind: ThemeKind) -> (r: ThemePalette)
    ensures
        r == palette(kind),
{
    match kind {
        ThemeKind::Dark => ThemePalette {
            primary: (79, 172, 254),
            success: (34, 197, 94),
            warning: (251, 191, 36),
            error: (239, 68, 68),
            muted: (156, 163, 175),
            accent: (168, 85, 247),
            background: (17, 24, 39),
            surface: (31, 41, 55),
            text: (243, 244, 246),
        },
        ThemeKind::Light => ThemePalette {
            primary: (37, 99, 235),
            success: (22, 163, 74),
            warning: (245, 158, 11),
            error: (220, 38, 38),
            muted: (100, 116, 139),
            accent: (124, 58, 237),
            background: (248, 250, 252),
            surface: (255, 255, 255),
            text: (15, 23, 42),
        },
    }
}

/// Which colour of the theme a line is drawn in.
#[derive(Clone, Copy, Debug, PartialEq, Eq, Structural)]
pub enum Tone {
    Error,
    Warning,
    Primary,
    Text,
    Muted,
}

pub open spec fn tone_color(p: ThemePalette, t: Tone) -> (u8, u8, u8) {
    match t {
        Tone::Error => p.error,
        Tone::Warning => p.warning,
        Tone::Primary => p.primary,
        Tone::Text => p.text,
        Tone::Muted => p.muted,
    }
}

/// The colour of a tone in a palette.
pub fn tone_rgb(p: &ThemePalette, t: Tone) -> (r: (u8, u8, u8))
    ensures
        r == tone_color(*p, t),
{
    match t {
        Tone::Error => p.error,
        Tone::Warning => p.warning,
        Tone::Primary => p.primary,
        Tone::Text => p.text,
        Tone::Muted => p.muted,
    }
}

pub open spec fn mentions(s: Seq<char>, a: Seq<char>, b: Seq<char>, c: Seq<char>) -> bool {
    contains(s, a) || contains(s, b) || contains(s, c)
}

/// The tone of the `i`-th shown event: by the level it mentions (error,
/// warn, info in lower, capitalised or upper case), else plain text for
/// the first five and muted for the rest.
pub open spec fn event_tone_of(s: Seq<char>, i: int) -> Tone {
    if mentions(s, "error"@, "Error"@, "ERROR"@) {
        Tone::Error
    } else if mentions(s, "warn"@, "Warn"@, "WARN"@) {
        Tone::Warning
    } else if mentions(s, "info"@, "Info"@, "INFO"@) {
        Tone::Primary
    } else if i < 5 {
        Tone::Text
    } else {
        Tone::Muted
    }
}

pub fn event_tone(s: &str, i: usize) -> (r: Tone)
    ensures
        r == event_tone_of(s@, i as int),
{
    if str_contains(s, "error") || str_contains(s, "Error") || str_contains(s, "ERROR") {
        Tone::Error
    } else if str_contains(s, "warn") || str_contains(s, "Warn") || str_contains(s, "WARN") {
        Tone::Warning
    } else if str_contains(s, "info") || str_contains(s, "Info") || str_contains(s, "INFO") {
        Tone::Primary
    } else if i < 5 {
        Tone::Text
    } else {
        Tone::Muted
    }
}

/// The tone of the `i`-th line of a component's log: by the level it names
/// (`[ERROR]`/`ERROR`, `[WARN]`/`WARN`, `[INFO]`/`INFO`,
/// `[DEBUG]`/`DEBUG`, muted), else plain text for the first ten and muted
/// for the rest.
pub open spec fn log_line_tone_of(s: Seq<char>, i: int) -> Tone {
    if contains(s, "[ERROR]"@) || contains(s, "ERROR"@) {
        Tone::Error
    } else if contains(s, "[WARN]"@) || contains(s, "WARN"@) {
        Tone::Warning
    } else if contains(s, "[INFO]"@) || contains(s, "INFO"@) {
        Tone::Primary
    } else if contains(s, "[DEBUG]"@) || contains(s, "DEBUG"@) {
        Tone::Muted
    } else if i < 10 {
        Tone::Text
    } else {
        Tone::Muted
    }
}

pub fn log_line_tone(s: &str, i: usize) -> (r: Tone)
    ensures
        r == log_line_tone_of(s@, i as int),
{
    if str_contains(s, "[ERROR]") || str_contains(s, "ERROR") {
        Tone::Error
    } else if str_contains(s, "[WARN]") || str_contains(s, "WARN") {
        Tone::Warning
    } else if str_contains(s, "[INFO]") || str_contains(s, "INFO") {
        Tone::Primary
    } else if str_contains(s, "[DEBUG]") || str_contains(s, "DEBUG") {
        Tone::Muted
    } else if i < 10 {
        Tone::Text
    } else {
        Tone::Muted
    }
}

/// A number right-aligned in two columns.
pub open spec fn pad2(d: Seq<char>) -> Seq<char> {
    if d.len() < 2 {
        " "@ + d
    } else {
        d
    }
}

/// The age of an event `secs` seconds old: seconds under a minute, minutes
/// under an hour, hours beyond.
pub open spec fn age_label_of(secs: u64) -> Seq<char> {
    if secs < 60 {
        pad2(decimal(secs as nat)) + "s"@
    } else if secs < 3600 {
        pad2(decimal((secs / 60) as nat)) + "m"@
    } else {
        pad2(decimal((secs / 3600) as nat)) + "h"@
    }
}

fn pad2_exec(d: String) -> (r: String)
    ensures
        r@ == pad2(d@),
{
    if d.unicode_len() < 2 {
        String::from_str(" ").concat(d.as_str())
    } else {
        d
    }
}

pub fn age_label(secs: u64) -> (r: String)
    ensures
        r@ == age_label_of(secs),
{
    if secs < 60 {
        pad2_exec(u64_to_decimal(secs)).concat("s")
    } else if secs < 3600 {
        pad2_exec(u64_to_decimal(secs / 60)).concat("m")
    } else {
        pad2_exec(u64_to_decimal(secs / 3600)).concat("h")
    }
}

/// Does an event pass the filter (no filter, or its text contained)?
pub open spec fn passes(s: Seq<char>, filter: Option<Seq<char>>) -> bool {
    match filter {
        None => true,
        Some(f) => contains(s, f),
    }
}

/// The positions among the first `k` events of those that pass the filter.
pub open spec fn shown_positions(events: Seq<Seq<char>>, filter: Option<Seq<char>>, k: int) -> Seq<usize>
    decreases k,
{
    if k <= 0 {
        Seq::empty()
    } else {
        let rest = shown_positions(events, filter, k - 1);
        if passes(events[k - 1], filter) {
            rest.push((k - 1) as usize)
        } else {
            rest
        }
    }
}

/// The events the event view shows, by position, in order.
pub fn shown_events(events: &Vec<String>, filter: Option<&str>) -> (r: Vec<usize>)
    ensures
        r@ == shown_positions(events.deep_view(), crate::text::opt_str_view(filter), events@.len() as int),
{
    let ghost evs = events.deep_view();
    let mut out: Vec<usize> = Vec::new();
    let mut i: usize = 0;
    while i < events.len()
        invariant
            evs == events.deep_view(),
            i <= events@.len(),
            out@ == shown_positions(evs, crate::text::opt_str_view(filter), i as int),
        decreases events.len() - i,
    {
        let pass = match filter {
            None => true,
            Some(f) => str_contains(events[i].as_str(), f),
        };
        proof {
            assert(evs[i as int] == events@[i as int]@);
        }
        if pass {
            out.push(i);
        }
        i = i + 1;
    }
    out
}

/// The title of the event view: live or paused, how many events are shown
/// of how many, and the filter.
pub open spec fn events_title_of(paused: bool, shown: nat, total: nat, filter: Option<Seq<char>>) -> Seq<char> {
    "\u{1f4dd} Events "@ + (if paused {
        "\u{23f8}\u{fe0f} PAUSED"@
    } else {
        "\u{25b6}\u{fe0f} LIVE"@
    }) + " ( "@ + decimal(shown) + "/"@ + decimal(total) + " )"@ + match filter {
        Some(f) => " \u{1f50d} '"@ + f + "'"@,
        None => Seq::empty(),
    }
}

pub fn events_title(paused: bool, shown: usize, total: usize, filter: Option<&str>) -> (r: String)
    ensures
        r@ == events_title_of(paused, shown as nat, total as nat, crate::text::opt_str_view(filter)),
{
    let status = if paused {
        "\u{23f8}\u{fe0f} PAUSED"
    } else {
        "\u{25b6}\u{fe0f} LIVE"
    };
    let tail = match filter {
        Some(f) => String::from_str(" \u{1f50d} '").concat(f).concat("'"),
        None => String::new(),
    };
    proof {
        if filter is None {
            assert(tail@ =~= Seq::<char>::empty());
        }
    }
    String::from_str("\u{1f4dd} Events ").concat(status).concat(" ( ").concat(u64_to_decimal(shown as u64).as_str()).concat(
        "/",
    ).concat(u64_to_decimal(total as u64).as_str()).concat(" )").concat(tail.as_str())
}

/// The label of the `i`-th component in the component list: a house for
/// the first (the agent itself), a puzzle piece for the others.
pub fn component_entry(i: usize, name: &str) -> (r: (&'static str, String))
    ensures
        r.0@ == (if i == 0 { "\u{1f3e0}"@ } else { "\u{1f9e9}"@ }),
        r.1@ == " "@ + name@,
{
    (if i == 0 {
        "\u{1f3e0}"
    } else {
        "\u{1f9e9}"
    }, String::from_str(" ").concat(name))
}

/// The title of the log pane: the selected component (the first when none
/// is selected), `None` when there is no such component.
pub fn component_logs_title(components: &Vec<String>, selected: Option<usize>) -> (r: String)
    ensures
        ({
            let i = match selected {
                Some(s) => s as int,
                None => 0,
            };
            r@ == "\u{1f4cb} Logs - "@ + (if i < components@.len() {
                components@[i]@
            } else {
                "None"@
            })
        }),
{
    let i = match selected {
        Some(s) => s,
        None => 0,
    };
    if i < components.len() {
        String::from_str("\u{1f4cb} Logs - ").concat(components[i].as_str())
    } else {
        String::from_str("\u{1f4cb} Logs - ").concat("None")
    }
}

} // verus!
