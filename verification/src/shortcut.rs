//! Conversion between the frontend's shortcut notation (`mod+shift+g`) and
//! the `global_hotkey` notation (`CmdOrCtrl+Shift+KeyG`), and the decisions
//! that the global-shortcut commands take.
//!
//! Frontend tokens map to hotkey tokens as follows:
//!   mod, cmd, command, meta, ctrl, control -> CmdOrCtrl
//!   alt, option -> Alt;  shift -> Shift
//!   a single letter -> Key<UPPER>;  a single digit -> Digit<d>
//!   f1..f24 -> F1..F24;  space, escape, enter, tab, backspace, delete,
//!   arrowup/down/left/right -> their capitalised names;
//!   `[ ] \ / , . ; ' \` - =` -> BracketLeft ... Equal.
use vstd::prelude::*;

use crate::error::AppCommandError;
use crate::text;
use crate::text::{
    has_prefix, join_strings, parse_u8, push_char, split_str, str_eq, to_lowercase_str, trim_str,
    u8_to_decimal,
};

verus! {

/// The metadata key under which the shortcut is stored.
pub const GLOBAL_SHORTCUT_DB_KEY: &'static str = "global_shortcut";

/// Default global shortcut in frontend format.
pub const DEFAULT_SHORTCUT_FRONTEND: &'static str = "alt+shift+g";

// ---------------------------------------------------------------------------
// The model
// ---------------------------------------------------------------------------

pub open spec fn starts_with_seq(s: Seq<char>, p: Seq<char>) -> bool {
    p.len() <= s.len() && s.take(p.len() as int) == p
}

/// The hotkey code of a single punctuation key.
pub open spec fn punct_key_code(c: char) -> Option<Seq<char>> {
    if c == '[' {
        Some("BracketLeft"@)
    } else if c == ']' {
        Some("BracketRight"@)
    } else if c == '\\' {
        Some("Backslash"@)
    } else if c == '/' {
        Some("Slash"@)
    } else if c == ',' {
        Some("Comma"@)
    } else if c == '.' {
        Some("Period"@)
    } else if c == ';' {
        Some("Semicolon"@)
    } else if c == '\'' {
        Some("Quote"@)
    } else if c == '`' {
        Some("Backquote"@)
    } else if c == '-' {
        Some("Minus"@)
    } else if c == '=' {
        Some("Equal"@)
    } else {
        None
    }
}

/// The hotkey code of a named (multi-letter) frontend key.
pub open spec fn named_key_code(k: Seq<char>) -> Option<Seq<char>> {
    if k == "space"@ {
        Some("Space"@)
    } else if k == "escape"@ {
        Some("Escape"@)
    } else if k == "enter"@ {
        Some("Enter"@)
    } else if k == "tab"@ {
        Some("Tab"@)
    } else if k == "backspace"@ {
        Some("Backspace"@)
    } else if k == "delete"@ {
        Some("Delete"@)
    } else if k == "arrowup"@ {
        Some("ArrowUp"@)
    } else if k == "arrowdown"@ {
        Some("ArrowDown"@)
    } else if k == "arrowleft"@ {
        Some("ArrowLeft"@)
    } else if k == "arrowright"@ {
        Some("ArrowRight"@)
    } else {
        None
    }
}

/// The number of a function key `f1`..`f24`: `f` followed by one or two more
/// characters that parse as a byte in 1..=24 (so `f05` and `f+5` count too).
pub open spec fn f_key_number(k: Seq<char>) -> Option<u8> {
    if 2 <= k.len() <= 3 && k[0] == 'f' && text::parse_u8_seq(k.skip(1)) is Some && 1 <= text::parse_u8_seq(
        k.skip(1),
    )->0 <= 24 {
        text::parse_u8_seq(k.skip(1))
    } else {
        None
    }
}

pub open spec fn unsupported_key_message(k: Seq<char>) -> Seq<char> {
    "Unsupported key: "@ + k
}

/// What `map_key_to_code` gives for a frontend key token: `Ok(code)` or
/// `Err(message)` of an invalid-input error.
pub open spec fn key_to_code_spec(k: Seq<char>) -> Result<Seq<char>, Seq<char>> {
    if k.len() == 1 && text::is_ascii_char(k[0]) {
        if text::is_ascii_alpha(k[0]) {
            Ok("Key"@.push(text::ascii_upper_char(k[0])))
        } else if text::is_ascii_digit(k[0]) {
            Ok("Digit"@.push(k[0]))
        } else if punct_key_code(k[0]) is Some {
            Ok(punct_key_code(k[0])->0)
        } else {
            Err(unsupported_key_message(k))
        }
    } else if f_key_number(k) is Some {
        Ok(seq!['F'] + text::decimal_seq(f_key_number(k)->0 as nat))
    } else if named_key_code(k) is Some {
        Ok(named_key_code(k)->0)
    } else {
        Err(unsupported_key_message(k))
    }
}

pub open spec fn is_mod_token(t: Seq<char>) -> bool {
    ||| t == "mod"@
    ||| t == "cmd"@
    ||| t == "command"@
    ||| t == "meta"@
    ||| t == "ctrl"@
    ||| t == "control"@
}

pub open spec fn is_alt_token(t: Seq<char>) -> bool {
    t == "alt"@ || t == "option"@
}

/// The hotkey code of one (trimmed, lower-cased) frontend token.
pub open spec fn frontend_token_to_code_spec(t: Seq<char>) -> Result<Seq<char>, Seq<char>> {
    if is_mod_token(t) {
        Ok("CmdOrCtrl"@)
    } else if is_alt_token(t) {
        Ok("Alt"@)
    } else if t == "shift"@ {
        Ok("Shift"@)
    } else {
        key_to_code_spec(t)
    }
}

/// The codes of all tokens, or the message of the first token that has none.
pub open spec fn tokens_to_codes(ts: Seq<Seq<char>>) -> Result<Seq<Seq<char>>, Seq<char>>
    decreases ts.len(),
{
    if ts.len() == 0 {
        Ok(Seq::<Seq<char>>::empty())
    } else {
        match frontend_token_to_code_spec(ts[0]) {
            Err(m) => Err(m),
            Ok(c) => match tokens_to_codes(ts.drop_first()) {
                Ok(cs) => Ok(seq![c] + cs),
                Err(m) => Err(m),
            },
        }
    }
}

/// The tokens of a frontend shortcut: its `+`-separated parts, trimmed and
/// lower-cased.
pub open spec fn frontend_tokens(s: Seq<char>) -> Seq<Seq<char>> {
    text::split_on(s, '+').map_values(|p: Seq<char>| text::lowercase_seq(text::trim_seq(p)))
}

pub open spec fn codes_to_tauri(r: Result<Seq<Seq<char>>, Seq<char>>) -> Result<
    Seq<char>,
    Seq<char>,
> {
    match r {
        Ok(cs) => Ok(text::join_with(cs, seq!['+'])),
        Err(m) => Err(m),
    }
}

/// What `frontend_to_tauri` gives for a frontend shortcut string.
pub open spec fn frontend_to_tauri_spec(s: Seq<char>) -> Result<Seq<char>, Seq<char>> {
    codes_to_tauri(tokens_to_codes(frontend_tokens(s)))
}

pub open spec fn is_mod_code(p: Seq<char>) -> bool {
    ||| p == "CmdOrCtrl"@
    ||| p == "CommandOrControl"@
    ||| p == "Super"@
    ||| p == "Control"@
    ||| p == "Command"@
}

/// The frontend key of a named or punctuation hotkey code.
pub open spec fn named_code_key(code: Seq<char>) -> Option<Seq<char>> {
    if code == "Space"@ {
        Some("space"@)
    } else if code == "Escape"@ {
        Some("escape"@)
    } else if code == "Enter"@ {
        Some("enter"@)
    } else if code == "Tab"@ {
        Some("tab"@)
    } else if code == "Backspace"@ {
        Some("backspace"@)
    } else if code == "Delete"@ {
        Some("delete"@)
    } else if code == "ArrowUp"@ {
        Some("arrowup"@)
    } else if code == "ArrowDown"@ {
        Some("arrowdown"@)
    } else if code == "ArrowLeft"@ {
        Some("arrowleft"@)
    } else if code == "ArrowRight"@ {
        Some("arrowright"@)
    } else if code == "BracketLeft"@ {
        Some("["@)
    } else if code == "BracketRight"@ {
        Some("]"@)
    } else if code == "Backslash"@ {
        Some("\\"@)
    } else if code == "Slash"@ {
        Some("/"@)
    } else if code == "Comma"@ {
        Some(","@)
    } else if code == "Period"@ {
        Some("."@)
    } else if code == "Semicolon"@ {
        Some(";"@)
    } else if code == "Quote"@ {
        Some("'"@)
    } else if code == "Backquote"@ {
        Some("`"@)
    } else if code == "Minus"@ {
        Some("-"@)
    } else if code == "Equal"@ {
        Some("="@)
    } else {
        None
    }
}

/// `F` followed by one or two characters that parse as a byte (any value).
pub open spec fn is_f_code(code: Seq<char>) -> bool {
    2 <= code.len() <= 3 && code[0] == 'F' && text::parse_u8_seq(code.skip(1)) is Some
}

/// What `map_code_to_key` gives for a hotkey code.
pub open spec fn code_to_key_spec(code: Seq<char>) -> Seq<char> {
    if starts_with_seq(code, "Key"@) {
        text::lowercase_seq(code.skip(3))
    } else if starts_with_seq(code, "Digit"@) {
        code.skip(5)
    } else if is_f_code(code) {
        text::lowercase_seq(code)
    } else if named_code_key(code) is Some {
        named_code_key(code)->0
    } else {
        text::lowercase_seq(code)
    }
}

/// The frontend token of one (trimmed) hotkey token.
pub open spec fn tauri_token_to_frontend_spec(p: Seq<char>) -> Seq<char> {
    if is_mod_code(p) {
        "mod"@
    } else if p == "Alt"@ {
        "alt"@
    } else if p == "Shift"@ {
        "shift"@
    } else {
        code_to_key_spec(p)
    }
}

pub open spec fn tauri_tokens(s: Seq<char>) -> Seq<Seq<char>> {
    text::split_on(s, '+').map_values(|p: Seq<char>| tauri_token_to_frontend_spec(text::trim_seq(p)))
}

/// What `tauri_to_frontend` gives for a hotkey string.
pub open spec fn tauri_to_frontend_spec(s: Seq<char>) -> Seq<char> {
    text::join_with(tauri_tokens(s), seq!['+'])
}

/// `res` is the outcome that `expected` describes: the same text on success,
/// an invalid-input error with the same message on failure.
pub open spec fn conversion_matches(
    res: Result<String, AppCommandError>,
    expected: Result<Seq<char>, Seq<char>>,
) -> bool {
    match expected {
        Ok(v) => res matches Ok(s) && s@ == v,
        Err(m) => res matches Err(e) && e.is_invalid_input(m),
    }
}

pub open spec fn option_matches(res: Option<String>, expected: Option<Seq<char>>) -> bool {
    match expected {
        Some(v) => res matches Some(s) && s@ == v,
        None => res is None,
    }
}

// ---------------------------------------------------------------------------
// Frontend -> global_hotkey
// ---------------------------------------------------------------------------

fn unsupported_key_error(key: &str) -> (e: AppCommandError)
    ensures
        e.is_invalid_input(unsupported_key_message(key@)),
{
    let mut m = String::from_str("Unsupported key: ");
    m.append(key);
    AppCommandError::invalid_input(m)
}

fn punct_code(c: char) -> (r: Option<String>)
    ensures
        option_matches(r, punct_key_code(c)),
{
    match c {
        '[' => Some(String::from_str("BracketLeft")),
        ']' => Some(String::from_str("BracketRight")),
        '\\' => Some(String::from_str("Backslash")),
        '/' => Some(String::from_str("Slash")),
        ',' => Some(String::from_str("Comma")),
        '.' => Some(String::from_str("Period")),
        ';' => Some(String::from_str("Semicolon")),
        '\'' => Some(String::from_str("Quote")),
        '`' => Some(String::from_str("Backquote")),
        '-' => Some(String::from_str("Minus")),
        '=' => Some(String::from_str("Equal")),
        _ => None,
    }
}

fn named_code(key: &str) -> (r: Option<String>)
    ensures
        option_matches(r, named_key_code(key@)),
{
    if str_eq(key, "space") {
        Some(String::from_str("Space"))
    } else if str_eq(key, "escape") {
        Some(String::from_str("Escape"))
    } else if str_eq(key, "enter") {
        Some(String::from_str("Enter"))
    } else if str_eq(key, "tab") {
        Some(String::from_str("Tab"))
    } else if str_eq(key, "backspace") {
        Some(String::from_str("Backspace"))
    } else if str_eq(key, "delete") {
        Some(String::from_str("Delete"))
    } else if str_eq(key, "arrowup") {
        Some(String::from_str("ArrowUp"))
    } else if str_eq(key, "arrowdown") {
        Some(String::from_str("ArrowDown"))
    } else if str_eq(key, "arrowleft") {
        Some(String::from_str("ArrowLeft"))
    } else if str_eq(key, "arrowright") {
        Some(String::from_str("ArrowRight"))
    } else {
        None
    }
}

/// Map a frontend key token to a `global_hotkey` key code string.
pub fn map_key_to_code(key: &str) -> (res: Result<String, AppCommandError>)
    ensures
        conversion_matches(res, key_to_code_spec(key@)),
{
    let n = key.unicode_len();
    if n == 1 {
        let ch = key.get_char(0);
        if (ch as u32) < 128 {
            if ('a' <= ch && ch <= 'z') || ('A' <= ch && ch <= 'Z') {
                let up = if 'a' <= ch && ch <= 'z' {
                    (((ch as u8) - 32) as u8) as char
                } else {
                    ch
                };
                let mut r = String::from_str("Key");
                push_char(&mut r, up);
                return Ok(r);
            }
            if '0' <= ch && ch <= '9' {
                let mut r = String::from_str("Digit");
                push_char(&mut r, ch);
                return Ok(r);
            }
            return match punct_code(ch) {
                Some(code) => Ok(code),
                None => Err(unsupported_key_error(key)),
            };
        }
    }
    // Function keys

    if 2 <= n && n <= 3 && key.get_char(0) == 'f' {
        let tail = key.substring_char(1, n);
        assert(tail@ == key@.skip(1));
        if let Some(v) = parse_u8(tail) {
            if 1 <= v && v <= 24 {
                let mut r = String::from_str("F");
                let digits = u8_to_decimal(v);
                r.append(digits.as_str());
                proof {
                    reveal_strlit("F");
                    assert(r@ =~= seq!['F'] + text::decimal_seq(v as nat));
                }
                return Ok(r);
            }
        }
    }
    match named_code(key) {
        Some(code) => Ok(code),
        None => Err(unsupported_key_error(key)),
    }
}

/// Map one trimmed, lower-cased frontend token to its `global_hotkey` token.
pub fn frontend_token_to_tauri(token: &str) -> (res: Result<String, AppCommandError>)
    ensures
        conversion_matches(res, frontend_token_to_code_spec(token@)),
{
    if str_eq(token, "mod") || str_eq(token, "cmd") || str_eq(token, "command") || str_eq(
        token,
        "meta",
    ) || str_eq(token, "ctrl") || str_eq(token, "control") {
        Ok(String::from_str("CmdOrCtrl"))
    } else if str_eq(token, "alt") || str_eq(token, "option") {
        Ok(String::from_str("Alt"))
    } else if str_eq(token, "shift") {
        Ok(String::from_str("Shift"))
    } else {
        map_key_to_code(token)
    }
}

/// Convert already trimmed and lower-cased frontend tokens and join the
/// results with `+`; the first token without a code decides the error.
pub fn frontend_tokens_to_tauri(tokens: &Vec<String>) -> (res: Result<String, AppCommandError>)
    ensures
        conversion_matches(res, codes_to_tauri(tokens_to_codes(text::views(tokens@)))),
{
    let ghost ts = text::views(tokens@);
    let mut codes: Vec<String> = Vec::new();
    let n = tokens.len();
    let mut i: usize = 0;
    assert(ts.skip(0) =~= ts);
    assert(text::views(codes@) =~= Seq::<Seq<char>>::empty());
    while i < n
        invariant
            i <= n,
            n == tokens@.len(),
            ts == text::views(tokens@),
            tokens_to_codes(ts) == match tokens_to_codes(ts.skip(i as int)) {
                Ok(cs) => Ok(text::views(codes@) + cs),
                Err(m) => Err(m),
            },
        decreases n - i,
    {
        let r = frontend_token_to_tauri(tokens[i].as_str());
        assert(ts.skip(i as int)[0] == ts[i as int]);
        assert(ts.skip(i as int).drop_first() =~= ts.skip(i as int + 1));
        match r {
            Ok(code) => {
                let ghost prev = text::views(codes@);
                codes.push(code);
                assert(text::views(codes@) =~= prev.push(code@));
                proof {
                    match tokens_to_codes(ts.skip(i as int + 1)) {
                        Ok(cs) => {
                            assert(prev + (seq![code@] + cs) =~= text::views(codes@) + cs);
                        },
                        Err(m) => {},
                    }
                }
            },
            Err(e) => {
                return Err(e);
            },
        }
        i = i + 1;
    }
    assert(ts.skip(n as int) =~= Seq::<Seq<char>>::empty());
    assert(text::views(codes@) + Seq::<Seq<char>>::empty() =~= text::views(codes@));
    let joined = join_strings(&codes, "+");
    proof {
        reveal_strlit("+");
        assert("+"@ =~= seq!['+']);
    }
    Ok(joined)
}

/// Convert from frontend shortcut format (`mod+shift+g`) to the
/// `global_hotkey` crate string format (`CmdOrCtrl+Shift+KeyG`).
pub fn frontend_to_tauri(frontend: &str) -> (res: Result<String, AppCommandError>)
    ensures
        conversion_matches(res, frontend_to_tauri_spec(frontend@)),
{
    let parts = split_str(frontend, '+');
    let mut tokens: Vec<String> = Vec::new();
    let n = parts.len();
    let mut i: usize = 0;
    while i < n
        invariant
            i <= n,
            n == parts@.len(),
            text::views(parts@) == text::split_on(frontend@, '+'),
            text::views(tokens@) == frontend_tokens(frontend@).take(i as int),
        decreases n - i,
    {
        assert(text::views(parts@)[i as int] == parts@[i as int]@);
        let trimmed = trim_str(parts[i].as_str());
        let lower = to_lowercase_str(trimmed);
        let ghost prev = text::views(tokens@);
        tokens.push(lower);
        assert(text::views(tokens@) =~= prev.push(lower@));
        assert(text::split_on(frontend@, '+').len() == n);
        assert(frontend_tokens(frontend@)[i as int] == lower@);
        assert(text::views(tokens@) =~= frontend_tokens(frontend@).take(i as int + 1));
        i = i + 1;
    }
    assert(frontend_tokens(frontend@).take(n as int) =~= frontend_tokens(frontend@));
    frontend_tokens_to_tauri(&tokens)
}

// ---------------------------------------------------------------------------
// global_hotkey -> frontend
// ---------------------------------------------------------------------------

fn named_key(code: &str) -> (r: Option<String>)
    ensures
        option_matches(r, named_code_key(code@)),
{
    if str_eq(code, "Space") {
        Some(String::from_str("space"))
    } else if str_eq(code, "Escape") {
        Some(String::from_str("escape"))
    } else if str_eq(code, "Enter") {
        Some(String::from_str("enter"))
    } else if str_eq(code, "Tab") {
        Some(String::from_str("tab"))
    } else if str_eq(code, "Backspace") {
        Some(String::from_str("backspace"))
    } else if str_eq(code, "Delete") {
        Some(String::from_str("delete"))
    } else if str_eq(code, "ArrowUp") {
        Some(String::from_str("arrowup"))
    } else if str_eq(code, "ArrowDown") {
        Some(String::from_str("arrowdown"))
    } else if str_eq(code, "ArrowLeft") {
        Some(String::from_str("arrowleft"))
    } else if str_eq(code, "ArrowRight") {
        Some(String::from_str("arrowright"))
    } else if str_eq(code, "BracketLeft") {
        Some(String::from_str("["))
    } else if str_eq(code, "BracketRight") {
        Some(String::from_str("]"))
    } else if str_eq(code, "Backslash") {
        Some(String::from_str("\\"))
    } else if str_eq(code, "Slash") {
        Some(String::from_str("/"))
    } else if str_eq(code, "Comma") {
        Some(String::from_str(","))
    } else if str_eq(code, "Period") {
        Some(String::from_str("."))
    } else if str_eq(code, "Semicolon") {
        Some(String::from_str(";"))
    } else if str_eq(code, "Quote") {
        Some(String::from_str("'"))
    } else if str_eq(code, "Backquote") {
        Some(String::from_str("`"))
    } else if str_eq(code, "Minus") {
        Some(String::from_str("-"))
    } else if str_eq(code, "Equal") {
        Some(String::from_str("="))
    } else {
        None
    }
}

/// Map a `global_hotkey` code string back to a frontend key token.
pub fn map_code_to_key(code: &str) -> (r: String)
    ensures
        r@ == code_to_key_spec(code@),
{
    let n = code.unicode_len();
    proof {
        reveal_strlit("Key");
        reveal_strlit("Digit");
    }
    // KeyA..KeyZ
    if has_prefix(code, "Key") {
        let letter = code.substring_char(3, n);
        return to_lowercase_str(letter);
    }
    // Digit0..Digit9
    if has_prefix(code, "Digit") {
        let digit = code.substring_char(5, n);
        return String::from_str(digit);
    }
    // Function keys F1..F24
    if 2 <= n && n <= 3 && code.get_char(0) == 'F' {
        let tail = code.substring_char(1, n);
        assert(tail@ == code@.skip(1));
        if parse_u8(tail).is_some() {
            return to_lowercase_str(code);
        }
    }
    match named_key(code) {
        Some(key) => key,
        None => to_lowercase_str(code),
    }
}

/// Map one trimmed `global_hotkey` token to its frontend token.
pub fn tauri_token_to_frontend(part: &str) -> (r: String)
    ensures
        r@ == tauri_token_to_frontend_spec(part@),
{
    if str_eq(part, "CmdOrCtrl") || str_eq(part, "CommandOrControl") || str_eq(part, "Super")
        || str_eq(part, "Control") || str_eq(part, "Command") {
        String::from_str("mod")
    } else if str_eq(part, "Alt") {
        String::from_str("alt")
    } else if str_eq(part, "Shift") {
        String::from_str("shift")
    } else {
        map_code_to_key(part)
    }
}

/// Convert from `global_hotkey` format (`CmdOrCtrl+Shift+KeyG`) back to
/// frontend format (`mod+shift+g`).
pub fn tauri_to_frontend(tauri_str: &str) -> (r: String)
    ensures
        r@ == tauri_to_frontend_spec(tauri_str@),
{
    let parts = split_str(tauri_str, '+');
    let mut mapped: Vec<String> = Vec::new();
    let n = parts.len();
    let mut i: usize = 0;
    while i < n
        invariant
            i <= n,
            n == parts@.len(),
            text::views(parts@) == text::split_on(tauri_str@, '+'),
            text::views(mapped@) == tauri_tokens(tauri_str@).take(i as int),
        decreases n - i,
    {
        assert(text::views(parts@)[i as int] == parts@[i as int]@);
        let trimmed = trim_str(parts[i].as_str());
        let m = tauri_token_to_frontend(trimmed);
        let ghost prev = text::views(mapped@);
        mapped.push(m);
        assert(text::views(mapped@) =~= prev.push(m@));
        assert(text::split_on(tauri_str@, '+').len() == n);
        assert(tauri_tokens(tauri_str@)[i as int] == m@);
        assert(text::views(mapped@) =~= tauri_tokens(tauri_str@).take(i as int + 1));
        i = i + 1;
    }
    assert(tauri_tokens(tauri_str@).take(n as int) =~= tauri_tokens(tauri_str@));
    let r = join_strings(&mapped, "+");
    proof {
        reveal_strlit("+");
        assert("+"@ =~= seq!['+']);
    }
    r
}

// ---------------------------------------------------------------------------
// Decisions of the global-shortcut commands
// ---------------------------------------------------------------------------

/// The shortcut to register at startup: the stored value when there is a
/// non-empty one, otherwise the default (a failed read counts as none).
pub fn startup_shortcut(stored: Option<String>) -> (r: String)
    ensures
        r@ == (match stored {
            Some(v) => if v@.len() > 0 {
                v@
            } else {
                DEFAULT_SHORTCUT_FRONTEND@
            },
            None => DEFAULT_SHORTCUT_FRONTEND@,
        }),
{
    match stored {
        Some(v) => {
            if v.as_str().unicode_len() > 0 {
                v
            } else {
                String::from_str(DEFAULT_SHORTCUT_FRONTEND)
            }
        },
        None => String::from_str(DEFAULT_SHORTCUT_FRONTEND),
    }
}

/// The shortcut to report as current: the stored value (even when empty),
/// otherwise the default.
pub fn stored_shortcut_or_default(stored: Option<String>) -> (r: String)
    ensures
        r@ == (match stored {
            Some(v) => v@,
            None => DEFAULT_SHORTCUT_FRONTEND@,
        }),
{
    match stored {
        Some(v) => v,
        None => String::from_str(DEFAULT_SHORTCUT_FRONTEND),
    }
}

/// The outcome of checking a new shortcut that has already been trimmed and
/// lower-cased: an error when it is empty or does not convert, else itself.
pub open spec fn shortcut_update_spec(normalized: Seq<char>) -> Result<Seq<char>, Seq<char>> {
    if normalized.len() == 0 {
        Err("Shortcut string must not be empty"@)
    } else {
        match frontend_to_tauri_spec(normalized) {
            Ok(_) => Ok(normalized),
            Err(m) => Err(m),
        }
    }
}

/// Check a trimmed, lower-cased new shortcut: it must be non-empty and
/// convert to the hotkey notation; on success it is handed back.
pub fn check_normalized_shortcut(normalized: String) -> (res: Result<String, AppCommandError>)
    ensures
        conversion_matches(res, shortcut_update_spec(normalized@)),
{
    if normalized.as_str().unicode_len() == 0 {
        return Err(AppCommandError::invalid_input(String::from_str("Shortcut string must not be empty")));
    }
    match frontend_to_tauri(normalized.as_str()) {
        Ok(_) => Ok(normalized),
        Err(e) => Err(e),
    }
}

/// Normalise a shortcut given by the user (trim, then lower-case) and check
/// it as `check_normalized_shortcut` does.
pub fn normalize_shortcut_update(shortcut: &str) -> (res: Result<String, AppCommandError>)
    ensures
        conversion_matches(res, shortcut_update_spec(text::lowercase_seq(text::trim_seq(shortcut@)))),
{
    let trimmed = trim_str(shortcut);
    let lower = to_lowercase_str(trimmed);
    check_normalized_shortcut(lower)
}

/// What toggling the application's visibility does to its windows.
#[derive(Debug, Clone, Copy, PartialEq, Eq, Structural)]
pub enum VisibilityAction {
    /// There are no windows.
    Nothing,
    /// At least one window is visible: hide them all.
    HideAll,
    /// No window is visible: show and focus them all.
    ShowAndFocusAll,
}

/// Toggle visibility of all application windows, given which are visible
/// (a window whose visibility cannot be read counts as hidden): with no
/// window nothing happens; if any is visible all are hidden; otherwise all
/// are shown and focused.
pub fn toggle_visibility_action(visible: &Vec<bool>) -> (a: VisibilityAction)
    ensures
        visible@.len() == 0 ==> a == VisibilityAction::Nothing,
        visible@.len() > 0 && visible@.contains(true) ==> a == VisibilityAction::HideAll,
        visible@.len() > 0 && !visible@.contains(true) ==> a == VisibilityAction::ShowAndFocusAll,
{
    let n = visible.len();
    if n == 0 {
        return VisibilityAction::Nothing;
    }
    let mut i: usize = 0;
    while i < n
        invariant
            i <= n,
            n == visible@.len(),
            forall|k: int| 0 <= k < i ==> !visible@[k],
        decreases n - i,
    {
        if visible[i] {
            assert(visible@[i as int] == true);
            return VisibilityAction::HideAll;
        }
        i = i + 1;
    }
    VisibilityAction::ShowAndFocusAll
}

} // verus!
