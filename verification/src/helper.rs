//! The privileged helper on macOS and Linux: a fixed script that checks
//! its input before changing routes, and a sudoers rule that lets it run
//! without a password.
use vstd::prelude::*;
use crate::gateway::Platform;
use crate::text::{append_str, chars_of, contains_chars, contains_spec};

verus! {

/// Where the helper script is installed.
pub const HELPER_PATH: &'static str = "/usr/local/lib/rubypass/apply.sh";

/// The sudoers rule that lets the helper run without a password.
pub const SUDOERS_PATH: &'static str = "/etc/sudoers.d/rubypass";

/// The helper script on macOS (routes through `route(8)`).
pub const MACOS_HELPER_SCRIPT: &'static str = "#!/bin/sh
# rubypass-helper v2
ACTION=$1
GATEWAY=$2
case \"$ACTION\" in
    add|delete|change) ;;
    *) exit 1 ;;
esac
printf '%s' \"$GATEWAY\" | grep -qE '^[0-9]+\\.[0-9]+\\.[0-9]+\\.[0-9]+$' || exit 1
while IFS= read -r CIDR; do
    printf '%s' \"$CIDR\" | grep -qE '^[0-9]+\\.[0-9]+\\.[0-9]+\\.[0-9]+/[0-9]+$' || continue
    if [ \"$ACTION\" = \"change\" ]; then
        route change -net \"$CIDR\" \"$GATEWAY\" 2>/dev/null || route add -net \"$CIDR\" \"$GATEWAY\" 2>/dev/null || true
    else
        route \"$ACTION\" -net \"$CIDR\" \"$GATEWAY\" 2>/dev/null || true
    fi
done
";

/// The helper script on Linux (routes through `ip-route(8)`).
pub const LINUX_HELPER_SCRIPT: &'static str = "#!/bin/sh
# rubypass-helper v1-linux
ACTION=$1
GATEWAY=$2
case \"$ACTION\" in
    add|delete|change) ;;
    *) exit 1 ;;
esac
printf '%s' \"$GATEWAY\" | grep -qE '^[0-9]+\\.[0-9]+\\.[0-9]+\\.[0-9]+$' || exit 1
while IFS= read -r CIDR; do
    printf '%s' \"$CIDR\" | grep -qE '^[0-9]+\\.[0-9]+\\.[0-9]+\\.[0-9]+/[0-9]+$' || continue
    if [ \"$ACTION\" = \"add\" ]; then
        ip route add \"$CIDR\" via \"$GATEWAY\" 2>/dev/null || true
    elif [ \"$ACTION\" = \"delete\" ]; then
        ip route del \"$CIDR\" via \"$GATEWAY\" 2>/dev/null || true
    else
        ip route change \"$CIDR\" via \"$GATEWAY\" 2>/dev/null || ip route add \"$CIDR\" via \"$GATEWAY\" 2>/dev/null || true
    fi
done
";

/// The version tag of the helper for a platform; a helper that does not
/// carry it is installed again.
pub open spec fn helper_version_spec(p: Platform) -> Option<Seq<char>> {
    match p {
        Platform::MacOs => Some("v2"@),
        Platform::Linux => Some("v1-linux"@),
        _ => None,
    }
}

/// The version tag of the helper for a platform (none on Windows).
pub fn helper_version(p: Platform) -> (r: Option<&'static str>)
    ensures
        match r {
            Some(v) => helper_version_spec(p) == Some(v@),
            None => helper_version_spec(p) is None,
        },
{
    match p {
        Platform::MacOs => Some("v2"),
        Platform::Linux => Some("v1-linux"),
        _ => None,
    }
}

/// The helper script for a platform (none on Windows).
pub fn helper_script(p: Platform) -> (r: Option<&'static str>)
    ensures
        match p {
            Platform::MacOs => r matches Some(x) && x@ == MACOS_HELPER_SCRIPT@,
            Platform::Linux => r matches Some(x) && x@ == LINUX_HELPER_SCRIPT@,
            _ => r is None,
        },
{
    match p {
        Platform::MacOs => Some(MACOS_HELPER_SCRIPT),
        Platform::Linux => Some(LINUX_HELPER_SCRIPT),
        _ => None,
    }
}

/// Whether an installed helper script is the current one: it carries the
/// platform's version tag.
pub fn helper_is_current(p: Platform, installed: &str) -> (r: bool)
    ensures
        r == match helper_version_spec(p) {
            Some(v) => contains_spec(installed@, v),
            None => false,
        },
{
    match helper_version(p) {
        None => false,
        Some(v) => {
            let s = chars_of(installed);
            let t = chars_of(v);
            contains_chars(&s, &t)
        },
    }
}

/// The group given the rule on Linux: `sudo` where that group exists, else
/// `wheel` where that exists, else `sudo`.
pub fn sudoers_group(has_sudo: bool, has_wheel: bool) -> (r: &'static str)
    ensures
        r@ == if !has_sudo && has_wheel {
            "wheel"@
        } else {
            "sudo"@
        },
{
    if has_sudo {
        "sudo"
    } else if has_wheel {
        "wheel"
    } else {
        "sudo"
    }
}

/// `%<group> ALL=(root) NOPASSWD: <helper>`.
pub open spec fn sudoers_line_spec(group: Seq<char>) -> Seq<char> {
    "%"@ + group + " ALL=(root) NOPASSWD: "@ + HELPER_PATH@
}

/// The sudoers rule for a group.
pub fn sudoers_line(group: &str) -> (r: String)
    ensures
        r@ == sudoers_line_spec(group@),
{
    let mut out = String::new();
    append_str(&mut out, "%");
    append_str(&mut out, group);
    append_str(&mut out, " ALL=(root) NOPASSWD: ");
    append_str(&mut out, HELPER_PATH);
    out
}

/// The script run with administrator rights: the helper copied from its
/// temporary file into place, owned by root and the given group, and the
/// sudoers rule written.
pub open spec fn install_script_spec(tmp_helper: Seq<char>, owner_group: Seq<char>, rule: Seq<char>) -> Seq<char> {
    "#!/bin/sh\nmkdir -p /usr/local/lib/rubypass\ncp "@ + tmp_helper + " "@ + HELPER_PATH@
        + "\nchmod 755 "@ + HELPER_PATH@ + "\nchown root:"@ + owner_group + " "@ + HELPER_PATH@
        + "\nprintf '%s\\n' '"@ + rule + "' > "@ + SUDOERS_PATH@ + "\nchmod 440 "@
        + SUDOERS_PATH@ + "\n"@
}

/// The installation script.
pub fn install_script(tmp_helper: &str, owner_group: &str, rule: &str) -> (r: String)
    ensures
        r@ == install_script_spec(tmp_helper@, owner_group@, rule@),
{
    let mut out = String::new();
    append_str(&mut out, "#!/bin/sh\nmkdir -p /usr/local/lib/rubypass\ncp ");
    append_str(&mut out, tmp_helper);
    append_str(&mut out, " ");
    append_str(&mut out, HELPER_PATH);
    append_str(&mut out, "\nchmod 755 ");
    append_str(&mut out, HELPER_PATH);
    append_str(&mut out, "\nchown root:");
    append_str(&mut out, owner_group);
    append_str(&mut out, " ");
    append_str(&mut out, HELPER_PATH);
    append_str(&mut out, "\nprintf '%s\\n' '");
    append_str(&mut out, rule);
    append_str(&mut out, "' > ");
    append_str(&mut out, SUDOERS_PATH);
    append_str(&mut out, "\nchmod 440 ");
    append_str(&mut out, SUDOERS_PATH);
    append_str(&mut out, "\n");
    assert(out@ =~= install_script_spec(tmp_helper@, owner_group@, rule@));
    out
}

/// What a run of the helper reports: every subnet handed over when it
/// succeeded, none otherwise.
pub fn helper_result(success: bool, handed: usize) -> (r: usize)
    ensures
        r == if success {
            handed
        } else {
            0
        },
{
    if success {
        handed
    } else {
        0
    }
}

} // verus!
