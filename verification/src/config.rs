//! Application settings and the locations of the files the application
//! keeps in its data directory.
use vstd::prelude::*;
use crate::text::{append_str, chars_of, opt_view};

verus! {

/// How often the subnet list is downloaded again.
#[derive(Clone, Copy, Debug, PartialEq, Eq, Structural)]
pub enum UpdateSchedule {
    Never,
    Daily,
    Weekly,
    Monthly,
}

/// The persisted settings.
#[derive(Clone, Debug)]
pub struct Config {
    pub bypass_enabled: bool,
    pub autostart: bool,
    pub update_schedule: UpdateSchedule,
    /// Time of the last subnet download, ISO 8601.
    pub last_updated: Option<String>,
    pub gateway_override: Option<String>,
}

impl Default for Config {
    fn default() -> (r: Self)
        ensures
            !r.bypass_enabled,
            !r.autostart,
            r.update_schedule == UpdateSchedule::Weekly,
            r.last_updated is None,
            r.gateway_override is None,
    {
        Config {
            bypass_enabled: false,
            autostart: false,
            update_schedule: UpdateSchedule::Weekly,
            last_updated: None,
            gateway_override: None,
        }
    }
}

/// A path separator on the platform whose main separator is `sep`
/// (`/` is one everywhere).
pub open spec fn is_separator(c: char, sep: char) -> bool {
    c == '/' || c == sep
}

/// On Windows (backslash separators), a base that is only a drive such as `C:`:
/// joining to it gives a path relative to that drive's current directory.
pub open spec fn bare_drive(base: Seq<char>, sep: char) -> bool {
    &&& sep == '\\'
    &&& base.len() == 2
    &&& (('a' <= base[0] && base[0] <= 'z') || ('A' <= base[0] && base[0] <= 'Z'))
    &&& base[1] == ':'
}

/// `PathBuf::join` of a relative name: a separator is put between the two
/// unless the base is empty, already ends with one, or is a bare drive.
/// (Bases with a verbatim `\\?\` prefix are not among the paths used here.)
pub open spec fn join_path_spec(base: Seq<char>, name: Seq<char>, sep: char) -> Seq<char> {
    if base.len() == 0 || is_separator(base.last(), sep) || bare_drive(base, sep) {
        base + name
    } else {
        base + seq![sep] + name
    }
}

pub open spec fn home_dir_spec(home: Option<Seq<char>>, user_profile: Option<Seq<char>>) -> Seq<
    char,
> {
    match home {
        Some(h) => h,
        None => match user_profile {
            Some(u) => u,
            None => "."@,
        },
    }
}

pub open spec fn data_dir_spec(home: Seq<char>, sep: char) -> Seq<char> {
    join_path_spec(home, ".rubypass"@, sep)
}

pub open spec fn config_path_spec(home: Seq<char>, sep: char) -> Seq<char> {
    join_path_spec(data_dir_spec(home, sep), "config.json"@, sep)
}


/// `PathBuf::join` for a relative name.
pub fn join_path(base: &str, name: &str, sep: char) -> (r: String)
    ensures
        r@ == join_path_spec(base@, name@, sep),
{
    let b = chars_of(base);
    let mut out = base.to_owned();
    let drive = sep == '\\' && b.len() == 2 && (('a' <= b[0] && b[0] <= 'z') || ('A' <= b[0] && b[0]
        <= 'Z')) && b[1] == ':';
    if b.len() > 0 && !(b[b.len() - 1] == '/' || b[b.len() - 1] == sep) && !drive {
        out.push(sep);
    }
    append_str(&mut out, name);
    out
}

/// The home directory: `HOME`, else `USERPROFILE`, else `.`.
pub fn home_dir(home: Option<String>, user_profile: Option<String>) -> (r: String)
    ensures
        r@ == home_dir_spec(opt_view(home), opt_view(user_profile)),
{
    match home {
        Some(h) => h,
        None => match user_profile {
            Some(u) => u,
            None => ".".to_owned(),
        },
    }
}

/// `~/.rubypass/config.json` under the given home directory.
pub fn config_path(home: &str, sep: char) -> (r: String)
    ensures
        r@ == config_path_spec(home@, sep),
{
    let dir = data_dir(home, sep);
    join_path(dir.as_str(), "config.json", sep)
}

/// The directory that holds the configuration: the parent of
/// [`config_path`].
pub fn data_dir(home: &str, sep: char) -> (r: String)
    ensures
        r@ == data_dir_spec(home@, sep),
{
    join_path(home, ".rubypass", sep)
}

} // verus!
