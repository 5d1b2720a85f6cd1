//! The command line's values, and the default place of the event log.
use vstd::prelude::*;
use crate::level::Dbfs;
use crate::text::{chars_of, push_char};

verus! {

/// The command to run.
#[derive(Clone, Debug)]
pub enum Command {
    /// Listen to the microphone and log yells.
    Run(RunArgs),
    /// Summarize the event log.
    Stats(StatsArgs),
}

/// The parsed command line.
#[derive(Clone, Debug)]
pub struct Cli {
    pub command: Command,
}

/// Options of live monitoring.
#[derive(Clone, Debug)]
pub struct RunArgs {
    pub threshold: Dbfs,
    pub cooldown_ms: u64,
    pub sustain_windows: usize,
    pub window_ms: u64,
    pub sample_rate: u32,
    pub log_path: String,
}

/// Options of the summary.
#[derive(Clone, Debug)]
pub struct StatsArgs {
    pub log_path: String,
    /// Window to summarize, e.g. 24h or 7d.
    pub since: Option<String>,
}

/// The path conventions of the platform the program runs on.
#[derive(Clone, Copy, Debug, PartialEq, Eq, Structural)]
pub enum PathStyle {
    /// `/` separates components.
    Unix,
    /// A backslash separates components, `/` is also read as a separator, and a
    /// drive such as `C:` may begin a path.
    Windows,
}

/// A character that separates path components.
pub open spec fn is_separator(style: PathStyle, c: char) -> bool {
    c == '/' || (style == PathStyle::Windows && c == '\\')
}

/// The separator that `PathBuf::push` inserts (`std::path::MAIN_SEPARATOR`).
pub open spec fn main_separator(style: PathStyle) -> char {
    match style {
        PathStyle::Unix => '/',
        PathStyle::Windows => '\\',
    }
}

/// A path that is a bare drive, such as `C:` (Windows only).
pub open spec fn is_bare_drive(style: PathStyle, base: Seq<char>) -> bool {
    &&& style == PathStyle::Windows
    &&& base.len() == 2
    &&& base[1] == ':'
    &&& (('a' <= base[0] && base[0] <= 'z') || ('A' <= base[0] && base[0] <= 'Z'))
}

/// `PathBuf::push` of a relative component without a prefix: the main
/// separator goes between the base and the component, unless the base is
/// empty, already ends in a separator, or is a bare drive.
pub open spec fn join_path(style: PathStyle, base: Seq<char>, component: Seq<char>) -> Seq<char> {
    if base.len() > 0 && !is_separator(style, base.last()) && !is_bare_drive(style, base) {
        base.push(main_separator(style)) + component
    } else {
        base + component
    }
}

/// The directory the default log lives under: the local data directory,
/// else `$HOME`, else the current directory.
pub open spec fn log_base(data_local_dir: Option<Seq<char>>, home: Option<Seq<char>>) -> Seq<char> {
    match data_local_dir {
        Some(d) => d,
        None => match home {
            Some(h) => h,
            None => seq!['.'],
        },
    }
}

/// The text of an optional string.
pub open spec fn text_view(s: Option<String>) -> Option<Seq<char>> {
    match s {
        Some(t) => Some(t@),
        None => None,
    }
}

/// `base` joined with the relative path component `component`.
pub fn join_component(style: PathStyle, base: &str, component: &str) -> (res: String)
    ensures
        res@ == join_path(style, base@, component@),
{
    let b = chars_of(base);
    let c = chars_of(component);
    let mut res = String::new();
    let mut i: usize = 0;
    while i < b.len()
        invariant
            i <= b@.len(),
            res@ == b@.take(i as int),
        decreases b.len() - i,
    {
        push_char(&mut res, b[i]);
        assert(res@ =~= b@.take(i + 1));
        i += 1;
    }
    assert(b@.take(b@.len() as int) =~= b@);
    let windows = match style {
        PathStyle::Windows => true,
        PathStyle::Unix => false,
    };
    let needs_separator = if b.len() == 0 {
        false
    } else {
        let last = b[b.len() - 1];
        let ends_in_separator = last == '/' || (windows && last == '\\');
        let bare_drive = windows && b.len() == 2 && b[1] == ':' && (('a' <= b[0] && b[0] <= 'z') || (
        'A' <= b[0] && b[0] <= 'Z'));
        !ends_in_separator && !bare_drive
    };
    if needs_separator {
        push_char(&mut res, if windows { '\\' } else { '/' });
    }
    let ghost prefix = res@;
    let mut j: usize = 0;
    while j < c.len()
        invariant
            j <= c@.len(),
            res@ == prefix + c@.take(j as int),
        decreases c.len() - j,
    {
        push_char(&mut res, c[j]);
        assert(res@ =~= prefix + c@.take(j + 1));
        j += 1;
    }
    assert(c@.take(c@.len() as int) =~= c@);
    res
}

/// The default path of the event log: `yell-guard/events.log` under the local
/// data directory, else under `$HOME`, else under the current directory,
/// joined with the conventions of `style`.
pub fn default_log_path_string(data_local_dir: Option<String>, home: Option<String>, style: PathStyle) -> (path: String)
    ensures
        path@ == join_path(
            style,
            join_path(style, log_base(text_view(data_local_dir), text_view(home)), "yell-guard"@),
            "events.log"@,
        ),
{
    let base: &str = match &data_local_dir {
        Some(d) => d.as_str(),
        None => match &home {
            Some(h) => h.as_str(),
            None => ".",
        },
    };
    proof {
        reveal_strlit(".");
        assert(base@ == log_base(text_view(data_local_dir), text_view(home)));
    }
    let dir = join_component(style, base, "yell-guard");
    join_component(style, dir.as_str(), "events.log")
}

} // verus!
