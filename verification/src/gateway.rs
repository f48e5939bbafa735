//! Detection of the physical gateway of the default route from the output
//! of the platform's routing tools.
use vstd::prelude::*;
use crate::text::{
    first_match, chars_eq, chars_of, chars_of_string, lines, lines_spec, starts_with, starts_with_spec,
    string_of, sub_chars, trim, trim_spec, views, words, words_spec,
};

verus! {

/// The operating system the application runs on.
#[derive(Clone, Copy, Debug, PartialEq, Eq, Structural)]
pub enum Platform {
    MacOs,
    Linux,
    Windows,
    Other,
}

/// What running a command gave: the error text when it could not be
/// started, else whether it exited successfully and its standard output.
#[derive(Clone, Debug)]
pub enum CommandOutput {
    Failed(String),
    Ran { success: bool, stdout: String },
}

// ---------------------------------------------------------------------------
// Specifications
// ---------------------------------------------------------------------------
/// `ipconfig getoption en0 router`: the trimmed output unless empty or
/// `0.0.0.0`.
pub open spec fn macos_router_spec(success: bool, stdout: Seq<char>) -> Option<Seq<char>> {
    let gw = trim_spec(stdout);
    if success && gw.len() > 0 && gw != "0.0.0.0"@ {
        Some(gw)
    } else {
        None
    }
}

/// A `gateway: ADDRESS` line of `route -n get default`.
pub open spec fn route_get_line(line: Seq<char>) -> Option<Seq<char>> {
    let t = trim_spec(line);
    if starts_with_spec(t, "gateway:"@) {
        let g = trim_spec(t.skip(8));
        if g.len() > 0 {
            Some(g)
        } else {
            None
        }
    } else {
        None
    }
}

/// The word after the first `via` in `ip route show default`.
pub open spec fn first_via(w: Seq<Seq<char>>) -> Option<Seq<char>>
    decreases w.len(),
{
    if w.len() < 2 {
        None
    } else if w[0] == "via"@ {
        Some(w[1])
    } else {
        first_via(w.drop_first())
    }
}

/// A `0.0.0.0 0.0.0.0 GATEWAY ...` line of `route print 0.0.0.0`.
pub open spec fn route_print_line(line: Seq<char>) -> Option<Seq<char>> {
    let w = words_spec(line);
    if w.len() >= 3 && w[0] == "0.0.0.0"@ && w[1] == "0.0.0.0"@ && w[2].len() > 0 && w[2]
        != "On-link"@ {
        Some(w[2])
    } else {
        None
    }
}

pub open spec fn not_found() -> Seq<char> {
    "Не удалось определить шлюз"@
}

pub open spec fn found_or_not(r: Option<Seq<char>>) -> Result<Seq<char>, Seq<char>> {
    match r {
        Some(g) => Ok(g),
        None => Err(not_found()),
    }
}

pub open spec fn output_view(o: CommandOutput) -> Result<(bool, Seq<char>), Seq<char>> {
    match o {
        CommandOutput::Failed(e) => Err(e@),
        CommandOutput::Ran { success, stdout } => Ok((success, stdout@)),
    }
}

pub open spec fn result_view(r: Result<String, String>) -> Result<Seq<char>, Seq<char>> {
    match r {
        Ok(s) => Ok(s@),
        Err(e) => Err(e@),
    }
}

/// The gateway found from the outputs of the platform's commands: on macOS
/// `ipconfig getoption en0 router`, then `route -n get default`; on Linux
/// `ip route show default`; on Windows `route print 0.0.0.0`.
pub open spec fn detect_spec(
    platform: Platform,
    primary: Result<(bool, Seq<char>), Seq<char>>,
    fallback: Result<(bool, Seq<char>), Seq<char>>,
) -> Result<Seq<char>, Seq<char>> {
    match platform {
        Platform::MacOs => match primary {
            Err(e) => Err(e),
            Ok((success, out)) => match macos_router_spec(success, out) {
                Some(g) => Ok(g),
                None => match fallback {
                    Err(e) => Err(e),
                    Ok((_, out2)) => found_or_not(
                        first_match(lines_spec(out2), |l: Seq<char>| route_get_line(l)),
                    ),
                },
            },
        },
        Platform::Linux => match primary {
            Err(e) => Err(e),
            Ok((_, out)) => found_or_not(first_via(words_spec(out))),
        },
        Platform::Windows => match primary {
            Err(e) => Err(e),
            Ok((_, out)) => found_or_not(
                first_match(lines_spec(out), |l: Seq<char>| route_print_line(l)),
            ),
        },
        Platform::Other => Err("Платформа не поддерживается"@),
    }
}

// ---------------------------------------------------------------------------
// Executable functions
// ---------------------------------------------------------------------------
fn macos_router(success: bool, stdout: &String) -> (r: Option<String>)
    ensures
        match r {
            Some(g) => macos_router_spec(success, stdout@) == Some(g@),
            None => macos_router_spec(success, stdout@) is None,
        },
{
    if !success {
        return None;
    }
    let v = chars_of_string(stdout);
    let gw = trim(&v);
    let zero = chars_of("0.0.0.0");
    if gw.len() > 0 && !chars_eq(&gw, &zero) {
        Some(string_of(&gw))
    } else {
        None
    }
}

fn route_get_gateway(line: &[char]) -> (r: Option<Vec<char>>)
    ensures
        match r {
            Some(g) => route_get_line(line@) == Some(g@),
            None => route_get_line(line@) is None,
        },
{
    let t = trim(line);
    let key = chars_of("gateway:");
    if starts_with(&t, &key) {
        assert(key@.len() == 8) by {
            reveal_strlit("gateway:");
        }
        let rest = sub_chars(&t, 8, t.len());
        assert(rest@ == t@.skip(8));
        let g = trim(&rest);
        if g.len() > 0 {
            Some(g)
        } else {
            None
        }
    } else {
        None
    }
}

fn route_print_gateway(line: &[char]) -> (r: Option<Vec<char>>)
    ensures
        match r {
            Some(g) => route_print_line(line@) == Some(g@),
            None => route_print_line(line@) is None,
        },
{
    let w = words(line);
    let ghost wv = views(w@);
    let zero = chars_of("0.0.0.0");
    let on_link = chars_of("On-link");
    if w.len() >= 3 {
        assert(wv[0] == w[0 as int]@ && wv[1] == w[1 as int]@ && wv[2] == w[2 as int]@);
        if chars_eq(&w[0], &zero) && chars_eq(&w[1], &zero) && w[2].len() > 0 && !chars_eq(
            &w[2],
            &on_link,
        ) {
            let g = sub_chars(&w[2], 0, w[2].len());
            assert(g@ =~= w[2 as int]@);
            return Some(g);
        }
    }
    None
}

/// The first `gateway:` line of `route -n get default`.
fn scan_route_get(text: &String) -> (r: Option<String>)
    ensures
        match r {
            Some(g) => first_match(lines_spec(text@), |l: Seq<char>| route_get_line(l)) == Some(
                g@,
            ),
            None => first_match(lines_spec(text@), |l: Seq<char>| route_get_line(l)) is None,
        },
{
    let v = chars_of_string(text);
    let ls = lines(&v);
    let ghost lv = views(ls@);
    let ghost f = |l: Seq<char>| route_get_line(l);
    let mut i: usize = 0;
    assert(lv.skip(0) == lv);
    while i < ls.len()
        invariant
            i <= ls.len(),
            lv == views(ls@),
            lv == lines_spec(text@),
            f == (|l: Seq<char>| route_get_line(l)),
            first_match(lv, f) == first_match(lv.skip(i as int), f),
        decreases ls.len() - i,
    {
        assert(lv.skip(i as int)[0] == ls[i as int]@);
        assert(lv.skip(i as int).drop_first() == lv.skip(i + 1));
        match route_get_gateway(&ls[i]) {
            Some(g) => {
                return Some(string_of(&g));
            },
            None => {},
        }
        i = i + 1;
    }
    None
}

/// The first default-route line of `route print 0.0.0.0`.
fn scan_route_print(text: &String) -> (r: Option<String>)
    ensures
        match r {
            Some(g) => first_match(lines_spec(text@), |l: Seq<char>| route_print_line(l))
                == Some(g@),
            None => first_match(lines_spec(text@), |l: Seq<char>| route_print_line(l)) is None,
        },
{
    let v = chars_of_string(text);
    let ls = lines(&v);
    let ghost lv = views(ls@);
    let ghost f = |l: Seq<char>| route_print_line(l);
    let mut i: usize = 0;
    assert(lv.skip(0) == lv);
    while i < ls.len()
        invariant
            i <= ls.len(),
            lv == views(ls@),
            lv == lines_spec(text@),
            f == (|l: Seq<char>| route_print_line(l)),
            first_match(lv, f) == first_match(lv.skip(i as int), f),
        decreases ls.len() - i,
    {
        assert(lv.skip(i as int)[0] == ls[i as int]@);
        assert(lv.skip(i as int).drop_first() == lv.skip(i + 1));
        match route_print_gateway(&ls[i]) {
            Some(g) => {
                return Some(string_of(&g));
            },
            None => {},
        }
        i = i + 1;
    }
    None
}

/// The word after the first `via`.
fn scan_via(text: &String) -> (r: Option<String>)
    ensures
        match r {
            Some(g) => first_via(words_spec(text@)) == Some(g@),
            None => first_via(words_spec(text@)) is None,
        },
{
    let v = chars_of_string(text);
    let w = words(&v);
    let ghost wv = views(w@);
    let via_word = chars_of("via");
    let mut i: usize = 0;
    assert(wv.skip(0) == wv);
    while i < w.len()
        invariant
            i <= w.len(),
            wv == views(w@),
            wv == words_spec(text@),
            via_word@ == "via"@,
            first_via(wv) == first_via(wv.skip(i as int)),
        decreases w.len() - i,
    {
        if i + 1 >= w.len() {
            return None;
        }
        assert(wv.skip(i as int)[0] == w[i as int]@);
        assert(wv.skip(i as int)[1] == w[i + 1]@);
        assert(wv.skip(i as int).drop_first() == wv.skip(i + 1));
        if chars_eq(&w[i], &via_word) {
            return Some(string_of(&w[i + 1]));
        }
        i = i + 1;
    }
    None
}

fn not_found_error() -> (e: String)
    ensures
        e@ == not_found(),
{
    "Не удалось определить шлюз".to_owned()
}

/// Returns the physical gateway of the default route, from the outputs of
/// the platform's commands.  `fallback` is read on macOS only, when the
/// first command gives no usable address.
pub fn detect(platform: Platform, primary: &CommandOutput, fallback: &CommandOutput) -> (r: Result<
    String,
    String,
>)
    ensures
        result_view(r) == detect_spec(platform, output_view(*primary), output_view(*fallback)),
{
    match platform {
        Platform::MacOs => match primary {
            CommandOutput::Failed(e) => Err(e.clone()),
            CommandOutput::Ran { success, stdout } => match macos_router(*success, stdout) {
                Some(g) => Ok(g),
                None => match fallback {
                    CommandOutput::Failed(e) => Err(e.clone()),
                    CommandOutput::Ran { success: _, stdout: out2 } => match scan_route_get(out2) {
                        Some(g) => Ok(g),
                        None => Err(not_found_error()),
                    },
                },
            },
        },
        Platform::Linux => match primary {
            CommandOutput::Failed(e) => Err(e.clone()),
            CommandOutput::Ran { success: _, stdout } => match scan_via(stdout) {
                Some(g) => Ok(g),
                None => Err(not_found_error()),
            },
        },
        Platform::Windows => match primary {
            CommandOutput::Failed(e) => Err(e.clone()),
            CommandOutput::Ran { success: _, stdout } => match scan_route_print(stdout) {
                Some(g) => Ok(g),
                None => Err(not_found_error()),
            },
        },
        Platform::Other => Err("Платформа не поддерживается".to_owned()),
    }
}

} // verus!
