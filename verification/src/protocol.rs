//! Choice of the terminal graphics protocol, forced by name or detected from the
//! terminal's environment variables.

use vstd::prelude::*;
use crate::strings::{
    ascii_lower, is_ascii_chars, dotted_numbers, has_infix, has_prefix, lowercase, parse_u32, part_or_zero, str_contains, str_eq,
    str_parse_u32, str_starts_with, to_lowercase, version_parts,
};

verus! {

/// The ways an image can be drawn in a terminal.
#[derive(Debug, Clone, Copy, PartialEq, Eq, Structural)]
pub enum ImageProtocol {
    Sixel,
    Kitty,
    HalfBlock,
    Braille,
    Ascii,
}

/// The environment variables that protocol detection reads (`None` when unset or
/// not valid Unicode).
pub struct TermEnv {
    pub kitty_window_id: Option<String>,
    pub kitty_pid: Option<String>,
    pub ghostty_resources_dir: Option<String>,
    pub term_program: Option<String>,
    pub term_program_version: Option<String>,
    pub konsole_version: Option<String>,
    pub term: Option<String>,
    pub foot_version: Option<String>,
    pub wezterm_version: Option<String>,
}

/// Lexicographic comparison of version triples.
pub open spec fn triple_ge(a: (u32, u32, u32), b: (u32, u32, u32)) -> bool {
    a.0 > b.0 || (a.0 == b.0 && (a.1 > b.1 || (a.1 == b.1 && a.2 >= b.2)))
}

/// A dotted version string is at least `major.minor.patch`; missing or
/// unparsable components count as absent and absent trailing components as 0.
pub open spec fn version_at_least(v: Seq<char>, major: u32, minor: u32, patch: u32) -> bool {
    let p = version_parts(v);
    triple_ge((part_or_zero(p, 0), part_or_zero(p, 1), part_or_zero(p, 2)), (major, minor, patch))
}

/// WezTerm versions (`year.month...`) from 2022.6 on draw sixel.
pub open spec fn wezterm_version_ok(v: Seq<char>) -> bool {
    let p = version_parts(v);
    let (year, month) = (part_or_zero(p, 0), part_or_zero(p, 1));
    year > 2022 || (year == 2022 && month >= 6)
}

/// Konsole 22.04 and later (`KONSOLE_VERSION` at least 220400; unparsable counts as 0).
pub open spec fn konsole_ok(env: TermEnv) -> bool {
    env.konsole_version matches Some(v) && match parse_u32(v@) {
        Some(n) => n >= 220400,
        None => false,
    }
}

/// When the kitty graphics protocol is taken to be available.
pub open spec fn kitty_available(env: TermEnv) -> bool {
    ||| env.kitty_window_id is Some
    ||| env.kitty_pid is Some
    ||| env.ghostty_resources_dir is Some
    ||| (env.term_program matches Some(tp) && {
        ||| tp@ == "kitty"@
        ||| tp@ == "ghostty"@
        ||| tp@ == "rio"@
        ||| tp@ == "WezTerm"@
        ||| (tp@ == "iterm.app"@ && (env.term_program_version matches Some(v) && version_at_least(v@, 3, 4, 0)))
        ||| (tp@ == "konsole"@ && konsole_ok(env))
    })
    ||| (env.term matches Some(t) && (has_infix(lowercase(t@), "kitty"@) || t@ == "xterm-ghostty"@))
}

/// When sixel graphics are taken to be available.
pub open spec fn sixel_available(env: TermEnv) -> bool {
    ||| env.foot_version is Some
    ||| (env.term matches Some(t) && has_prefix(lowercase(t@), "foot"@))
    ||| (env.term_program matches Some(tp) && {
        ||| (tp@ == "vscode"@ && (env.term_program_version matches Some(v) && version_at_least(v@, 1, 80, 0)))
        ||| (tp@ == "rio"@ && (env.term_program_version matches Some(v) && version_at_least(v@, 12, 0, 0)))
        ||| tp@ == "mintty"@
        ||| (tp@ == "WezTerm"@ && (env.wezterm_version matches Some(v) && wezterm_version_ok(v@)))
        ||| (tp@ == "konsole"@ && konsole_ok(env))
    })
    ||| (env.term matches Some(t) && has_prefix(lowercase(t@), "mlterm"@))
}

/// The protocol a (lowercased) name selects.
pub open spec fn protocol_named(name: Seq<char>) -> Option<ImageProtocol> {
    if name == "kitty"@ {
        Some(ImageProtocol::Kitty)
    } else if name == "sixel"@ {
        Some(ImageProtocol::Sixel)
    } else if name == "halfblock"@ {
        Some(ImageProtocol::HalfBlock)
    } else if name == "braille"@ {
        Some(ImageProtocol::Braille)
    } else if name == "ascii"@ {
        Some(ImageProtocol::Ascii)
    } else {
        None
    }
}

/// The detected protocol: kitty if available, else sixel, else half blocks.
pub open spec fn detected_protocol(env: TermEnv) -> ImageProtocol {
    if kitty_available(env) {
        ImageProtocol::Kitty
    } else if sixel_available(env) {
        ImageProtocol::Sixel
    } else {
        ImageProtocol::HalfBlock
    }
}

/// Versions are compared part by part, the most significant first: a version
/// whose first part is below `major` is older and one whose first part is above
/// is newer, whatever follows; with the first parts equal the second decides in
/// the same way, and with both equal the third must be at least `patch`.
pub proof fn lemma_version_order(v: Seq<char>, major: u32, minor: u32, patch: u32)
    ensures
        ({
            let p = version_parts(v);
            let a = part_or_zero(p, 0);
            let b = part_or_zero(p, 1);
            let c = part_or_zero(p, 2);
            &&& a < major ==> !version_at_least(v, major, minor, patch)
            &&& a > major ==> version_at_least(v, major, minor, patch)
            &&& (a == major && b < minor) ==> !version_at_least(v, major, minor, patch)
            &&& (a == major && b > minor) ==> version_at_least(v, major, minor, patch)
            &&& (a == major && b == minor) ==> (version_at_least(v, major, minor, patch) <==> c >= patch)
        }),
{
}

/// Whether a dotted version string is at least `major.minor.patch`.
pub fn version_gte(version_str: &str, major: u32, minor: u32, patch: u32) -> (res: bool)
    ensures
        res == version_at_least(version_str@, major, minor, patch),
{
    let parts = dotted_numbers(version_str);
    let v_major: u32 = if parts.len() > 0 { parts[0] } else { 0 };
    let v_minor: u32 = if parts.len() > 1 { parts[1] } else { 0 };
    let v_patch: u32 = if parts.len() > 2 { parts[2] } else { 0 };
    v_major > major || (v_major == major && (v_minor > minor || (v_minor == minor && v_patch >= patch)))
}

/// Whether a WezTerm version draws sixel (2022.6 or later).
pub fn wezterm_sixel_supported(version: &str) -> (res: bool)
    ensures
        res == wezterm_version_ok(version@),
{
    let parts = dotted_numbers(version);
    let year: u32 = if parts.len() > 0 { parts[0] } else { 0 };
    let month: u32 = if parts.len() > 1 { parts[1] } else { 0 };
    year > 2022 || (year == 2022 && month >= 6)
}

fn konsole_supported(env: &TermEnv) -> (res: bool)
    ensures
        res == konsole_ok(*env),
{
    match &env.konsole_version {
        Some(v) => {
            let n: u32 = match str_parse_u32(v.as_str()) {
                Some(n) => n,
                None => 0,
            };
            n >= 220400
        },
        None => false,
    }
}

/// Whether the environment indicates a terminal that speaks the kitty graphics protocol.
pub fn is_kitty_available(env: &TermEnv) -> (res: bool)
    ensures
        res == kitty_available(*env),
{
    proof {
        reveal_strlit("kitty");
        reveal_strlit("ghostty");
        reveal_strlit("rio");
        reveal_strlit("WezTerm");
        reveal_strlit("iterm.app");
        reveal_strlit("konsole");
        assert("iterm.app"@.len() == 9 && "konsole"@.len() == 7);
    }
    if env.kitty_window_id.is_some() {
        return true;
    }
    if env.kitty_pid.is_some() {
        return true;
    }
    if env.ghostty_resources_dir.is_some() {
        return true;
    }
    if let Some(tp) = &env.term_program {
        let tp = tp.as_str();
        if str_eq(tp, "kitty") || str_eq(tp, "ghostty") || str_eq(tp, "rio") || str_eq(tp, "WezTerm") {
            return true;
        } else if str_eq(tp, "iterm.app") {
            if let Some(v) = &env.term_program_version {
                if version_gte(v.as_str(), 3, 4, 0) {
                    return true;
                }
            }
        } else if str_eq(tp, "konsole") {
            if konsole_supported(env) {
                return true;
            }
        }
    }
    if let Some(term) = &env.term {
        let lower = to_lowercase(term.as_str());
        if str_contains(lower.as_str(), "kitty") || str_eq(term.as_str(), "xterm-ghostty") {
            return true;
        }
    }
    false
}

/// Whether the environment indicates a terminal that draws sixel graphics.
pub fn is_sixel_available(env: &TermEnv) -> (res: bool)
    ensures
        res == sixel_available(*env),
{
    proof {
        reveal_strlit("vscode");
        reveal_strlit("rio");
        reveal_strlit("mintty");
        reveal_strlit("WezTerm");
        reveal_strlit("konsole");
        assert("vscode"@.len() == 6 && "rio"@.len() == 3 && "mintty"@.len() == 6);
        assert("WezTerm"@.len() == 7 && "konsole"@.len() == 7);
        assert("vscode"@[0] != "mintty"@[0] && "WezTerm"@[0] != "konsole"@[0]);
    }
    if env.foot_version.is_some() {
        return true;
    }
    if let Some(term) = &env.term {
        let lower = to_lowercase(term.as_str());
        if str_starts_with(lower.as_str(), "foot") {
            return true;
        }
    }
    if let Some(tp) = &env.term_program {
        let tp = tp.as_str();
        if str_eq(tp, "vscode") {
            if let Some(v) = &env.term_program_version {
                if version_gte(v.as_str(), 1, 80, 0) {
                    return true;
                }
            }
        } else if str_eq(tp, "rio") {
            if let Some(v) = &env.term_program_version {
                if version_gte(v.as_str(), 12, 0, 0) {
                    return true;
                }
            }
        } else if str_eq(tp, "mintty") {
            return true;
        } else if str_eq(tp, "WezTerm") {
            if let Some(v) = &env.wezterm_version {
                if wezterm_sixel_supported(v.as_str()) {
                    return true;
                }
            }
        } else if str_eq(tp, "konsole") {
            if konsole_supported(env) {
                return true;
            }
        }
    }
    if let Some(term) = &env.term {
        let lower = to_lowercase(term.as_str());
        if str_starts_with(lower.as_str(), "mlterm") {
            return true;
        }
    }
    false
}

/// The protocol selected by an already lowercased name, if any.
pub fn protocol_from_name(name: &str) -> (res: Option<ImageProtocol>)
    ensures
        res == protocol_named(name@),
{
    if str_eq(name, "kitty") {
        Some(ImageProtocol::Kitty)
    } else if str_eq(name, "sixel") {
        Some(ImageProtocol::Sixel)
    } else if str_eq(name, "halfblock") {
        Some(ImageProtocol::HalfBlock)
    } else if str_eq(name, "braille") {
        Some(ImageProtocol::Braille)
    } else if str_eq(name, "ascii") {
        Some(ImageProtocol::Ascii)
    } else {
        None
    }
}

/// The protocol to draw with: the one named by `force` (case-insensitively) when
/// it names one, otherwise the one detected from the environment.
pub fn determine_protocol(force: Option<&str>, env: &TermEnv) -> (res: ImageProtocol)
    ensures
        res == match force {
            Some(f) => match protocol_named(lowercase(f@)) {
                Some(p) => p,
                None => detected_protocol(*env),
            },
            None => detected_protocol(*env),
        },
        force matches Some(f) ==> (is_ascii_chars(f@) ==> res == match protocol_named(ascii_lower(f@)) {
            Some(p) => p,
            None => detected_protocol(*env),
        }),
{
    if let Some(forced) = force {
        let lower = to_lowercase(forced);
        if let Some(p) = protocol_from_name(lower.as_str()) {
            return p;
        }
    }
    if is_kitty_available(env) {
        ImageProtocol::Kitty
    } else if is_sixel_available(env) {
        ImageProtocol::Sixel
    } else {
        ImageProtocol::HalfBlock
    }
}

} // verus!
