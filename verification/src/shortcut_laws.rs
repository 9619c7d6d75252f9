//! Laws of the shortcut conversion: canonical frontend shortcuts survive a
//! round trip through the hotkey notation, and every conversion result is
//! stable under a second round trip.
use vstd::prelude::*;

use crate::shortcut as sc;
use crate::text;

verus! {

/// The frontend name of function key `n`: `f` followed by its decimal digits.
pub open spec fn f_key_name(n: nat) -> Seq<char> {
    seq!['f'] + text::decimal_seq(n)
}

/// The hotkey code of function key `n`: `F` followed by its decimal digits.
pub open spec fn f_key_code(n: nat) -> Seq<char> {
    seq!['F'] + text::decimal_seq(n)
}

/// The frontend key tokens in the form that converting a hotkey code back
/// produces: a lower-case letter, a digit, a supported punctuation character,
/// `f1`..`f24`, or a named key.
pub open spec fn is_canonical_key(k: Seq<char>) -> bool {
    ||| (k.len() == 1 && (text::is_ascii_lower(k[0]) || text::is_ascii_digit(k[0])
        || sc::punct_key_code(k[0]) is Some))
    ||| (exists|n: nat| 1 <= n <= 24 && k == #[trigger] f_key_name(n))
    ||| sc::named_key_code(k) is Some
}

/// Canonical frontend tokens: `mod`, `alt`, `shift` or a canonical key.
pub open spec fn is_canonical_token(t: Seq<char>) -> bool {
    t == "mod"@ || t == "alt"@ || t == "shift"@ || is_canonical_key(t)
}

/// Every `+`-separated part of `s` is a canonical token.
pub open spec fn is_canonical_shortcut(s: Seq<char>) -> bool {
    forall|i: int|
        0 <= i < text::split_on(s, '+').len() ==> is_canonical_token(
            #[trigger] text::split_on(s, '+')[i],
        )
}

/// ASCII, without whitespace and without `+`.
pub open spec fn is_clean(s: Seq<char>) -> bool {
    &&& vstd::utf8::is_ascii_chars(s)
    &&& text::has_no_whitespace(s)
    &&& !s.contains('+')
}

/// Clean and without upper-case letters.
pub open spec fn is_plain(s: Seq<char>) -> bool {
    &&& is_clean(s)
    &&& forall|i: int| 0 <= i < s.len() ==> !text::is_ascii_upper(#[trigger] s[i])
}

/// The characters of the literals that name keys, codes and separators.
pub proof fn lemma_literal_chars()
    ensures
        "'"@ =~= seq!['\''],
        "+"@ =~= seq!['+'],
        ","@ =~= seq![','],
        "-"@ =~= seq!['-'],
        "."@ =~= seq!['.'],
        "/"@ =~= seq!['/'],
        ";"@ =~= seq![';'],
        "="@ =~= seq!['='],
        "Alt"@ =~= seq!['A', 'l', 't'],
        "ArrowDown"@ =~= seq!['A', 'r', 'r', 'o', 'w', 'D', 'o', 'w', 'n'],
        "ArrowLeft"@ =~= seq!['A', 'r', 'r', 'o', 'w', 'L', 'e', 'f', 't'],
        "ArrowRight"@ =~= seq!['A', 'r', 'r', 'o', 'w', 'R', 'i', 'g', 'h', 't'],
        "ArrowUp"@ =~= seq!['A', 'r', 'r', 'o', 'w', 'U', 'p'],
        "Backquote"@ =~= seq!['B', 'a', 'c', 'k', 'q', 'u', 'o', 't', 'e'],
        "Backslash"@ =~= seq!['B', 'a', 'c', 'k', 's', 'l', 'a', 's', 'h'],
        "Backspace"@ =~= seq!['B', 'a', 'c', 'k', 's', 'p', 'a', 'c', 'e'],
        "BracketLeft"@ =~= seq!['B', 'r', 'a', 'c', 'k', 'e', 't', 'L', 'e', 'f', 't'],
        "BracketRight"@ =~= seq!['B', 'r', 'a', 'c', 'k', 'e', 't', 'R', 'i', 'g', 'h', 't'],
        "CmdOrCtrl"@ =~= seq!['C', 'm', 'd', 'O', 'r', 'C', 't', 'r', 'l'],
        "Comma"@ =~= seq!['C', 'o', 'm', 'm', 'a'],
        "Command"@ =~= seq!['C', 'o', 'm', 'm', 'a', 'n', 'd'],
        "CommandOrControl"@ =~= seq!['C', 'o', 'm', 'm', 'a', 'n', 'd', 'O', 'r', 'C', 'o', 'n', 't', 'r', 'o', 'l'],
        "Control"@ =~= seq!['C', 'o', 'n', 't', 'r', 'o', 'l'],
        "Delete"@ =~= seq!['D', 'e', 'l', 'e', 't', 'e'],
        "Digit"@ =~= seq!['D', 'i', 'g', 'i', 't'],
        "Enter"@ =~= seq!['E', 'n', 't', 'e', 'r'],
        "Equal"@ =~= seq!['E', 'q', 'u', 'a', 'l'],
        "Escape"@ =~= seq!['E', 's', 'c', 'a', 'p', 'e'],
        "Key"@ =~= seq!['K', 'e', 'y'],
        "Minus"@ =~= seq!['M', 'i', 'n', 'u', 's'],
        "Period"@ =~= seq!['P', 'e', 'r', 'i', 'o', 'd'],
        "Quote"@ =~= seq!['Q', 'u', 'o', 't', 'e'],
        "Semicolon"@ =~= seq!['S', 'e', 'm', 'i', 'c', 'o', 'l', 'o', 'n'],
        "Shift"@ =~= seq!['S', 'h', 'i', 'f', 't'],
        "Slash"@ =~= seq!['S', 'l', 'a', 's', 'h'],
        "Space"@ =~= seq!['S', 'p', 'a', 'c', 'e'],
        "Super"@ =~= seq!['S', 'u', 'p', 'e', 'r'],
        "Tab"@ =~= seq!['T', 'a', 'b'],
        "["@ =~= seq!['['],
        "\\"@ =~= seq!['\\'],
        "]"@ =~= seq![']'],
        "`"@ =~= seq!['`'],
        "alt"@ =~= seq!['a', 'l', 't'],
        "arrowdown"@ =~= seq!['a', 'r', 'r', 'o', 'w', 'd', 'o', 'w', 'n'],
        "arrowleft"@ =~= seq!['a', 'r', 'r', 'o', 'w', 'l', 'e', 'f', 't'],
        "arrowright"@ =~= seq!['a', 'r', 'r', 'o', 'w', 'r', 'i', 'g', 'h', 't'],
        "arrowup"@ =~= seq!['a', 'r', 'r', 'o', 'w', 'u', 'p'],
        "backspace"@ =~= seq!['b', 'a', 'c', 'k', 's', 'p', 'a', 'c', 'e'],
        "cmd"@ =~= seq!['c', 'm', 'd'],
        "command"@ =~= seq!['c', 'o', 'm', 'm', 'a', 'n', 'd'],
        "control"@ =~= seq!['c', 'o', 'n', 't', 'r', 'o', 'l'],
        "ctrl"@ =~= seq!['c', 't', 'r', 'l'],
        "delete"@ =~= seq!['d', 'e', 'l', 'e', 't', 'e'],
        "enter"@ =~= seq!['e', 'n', 't', 'e', 'r'],
        "escape"@ =~= seq!['e', 's', 'c', 'a', 'p', 'e'],
        "meta"@ =~= seq!['m', 'e', 't', 'a'],
        "mod"@ =~= seq!['m', 'o', 'd'],
        "option"@ =~= seq!['o', 'p', 't', 'i', 'o', 'n'],
        "shift"@ =~= seq!['s', 'h', 'i', 'f', 't'],
        "space"@ =~= seq!['s', 'p', 'a', 'c', 'e'],
        "tab"@ =~= seq!['t', 'a', 'b'],
{
    reveal_strlit("'");
    reveal_strlit("+");
    reveal_strlit(",");
    reveal_strlit("-");
    reveal_strlit(".");
    reveal_strlit("/");
    reveal_strlit(";");
    reveal_strlit("=");
    reveal_strlit("Alt");
    reveal_strlit("ArrowDown");
    reveal_strlit("ArrowLeft");
    reveal_strlit("ArrowRight");
    reveal_strlit("ArrowUp");
    reveal_strlit("Backquote");
    reveal_strlit("Backslash");
    reveal_strlit("Backspace");
    reveal_strlit("BracketLeft");
    reveal_strlit("BracketRight");
    reveal_strlit("CmdOrCtrl");
    reveal_strlit("Comma");
    reveal_strlit("Command");
    reveal_strlit("CommandOrControl");
    reveal_strlit("Control");
    reveal_strlit("Delete");
    reveal_strlit("Digit");
    reveal_strlit("Enter");
    reveal_strlit("Equal");
    reveal_strlit("Escape");
    reveal_strlit("Key");
    reveal_strlit("Minus");
    reveal_strlit("Period");
    reveal_strlit("Quote");
    reveal_strlit("Semicolon");
    reveal_strlit("Shift");
    reveal_strlit("Slash");
    reveal_strlit("Space");
    reveal_strlit("Super");
    reveal_strlit("Tab");
    reveal_strlit("[");
    reveal_strlit("\\");
    reveal_strlit("]");
    reveal_strlit("`");
    reveal_strlit("alt");
    reveal_strlit("arrowdown");
    reveal_strlit("arrowleft");
    reveal_strlit("arrowright");
    reveal_strlit("arrowup");
    reveal_strlit("backspace");
    reveal_strlit("cmd");
    reveal_strlit("command");
    reveal_strlit("control");
    reveal_strlit("ctrl");
    reveal_strlit("delete");
    reveal_strlit("enter");
    reveal_strlit("escape");
    reveal_strlit("meta");
    reveal_strlit("mod");
    reveal_strlit("option");
    reveal_strlit("shift");
    reveal_strlit("space");
    reveal_strlit("tab");
}

proof fn lemma_decimal_small(n: nat)
    requires
        1 <= n <= 24,
    ensures
        1 <= text::decimal_seq(n).len() <= 2,
        text::decimal_seq(n)[0] != '+',
        text::all_digits(text::decimal_seq(n)),
        text::parse_u8_seq(text::decimal_seq(n)) == Some(n as u8),
{
    reveal_with_fuel(text::decimal_seq, 2);
    let d = text::decimal_seq(n);
    if n < 10 {
        assert(d =~= seq![text::digit_char(n)]);
        assert(d.drop_last() =~= Seq::<char>::empty());
        assert(text::digits_value(d.drop_last()) == 0);
        assert(d.last() == text::digit_char(n));
        assert((text::digit_char(n) as nat) == 48 + n);
        assert(text::digits_value(d) == n);
    } else {
        assert(d =~= seq![text::digit_char(n / 10), text::digit_char(n % 10)]);
        assert(d.drop_last() =~= seq![text::digit_char(n / 10)]);
        let e = d.drop_last();
        assert(e.drop_last() =~= Seq::<char>::empty());
        assert(text::digits_value(e.drop_last()) == 0);
        assert(e.last() == text::digit_char(n / 10));
        assert((text::digit_char(n / 10) as nat) == 48 + n / 10);
        assert(text::digits_value(e) == n / 10);
        assert(d.last() == text::digit_char(n % 10));
        assert((text::digit_char(n % 10) as nat) == 48 + n % 10);
        assert((n / 10) * 10 + n % 10 == n) by (nonlinear_arith);
        assert(d.len() == 2);
        assert(text::digits_value(d) == text::digits_value(e) * 10 + ((d.last() as nat) - ('0' as nat)) as nat);
        assert(text::digits_value(d) == n);
    }
}

/// `a` becomes `Key<A>`, which converts back to the lower-case letter.
proof fn lemma_letter_key(a: char)
    requires
        text::is_ascii_alpha(a),
    ensures
        ({
            let u = text::ascii_upper_char(a);
            let c = "Key"@.push(u);
            let l = text::ascii_lower_char(u);
            &&& sc::key_to_code_spec(seq![a]) == Ok::<Seq<char>, Seq<char>>(c)
            &&& is_clean(c)
            &&& c.len() > 0
            &&& sc::tauri_token_to_frontend_spec(c) == seq![l]
            &&& sc::code_to_key_spec(c) == seq![l]
            &&& text::is_ascii_lower(l)
            &&& text::ascii_upper_char(l) == u
            &&& (text::is_ascii_lower(a) ==> l == a)
        }),
{
    lemma_literal_chars();
    let u = text::ascii_upper_char(a);
    let c = "Key"@.push(u);
    let l = text::ascii_lower_char(u);
    let k = seq![a];
    assert(k.len() == 1 && k[0] == a);
    assert(c =~= seq!['K', 'e', 'y', u]);
    assert(c.take(3) =~= "Key"@);
    assert(c.skip(3) =~= seq![u]);
    assert(vstd::utf8::is_ascii_chars(seq![u]));
    assert(text::ascii_lowercase(seq![u]) =~= seq![l]);
    assert(text::lowercase_seq(c.skip(3)) == seq![l]);
    assert(sc::starts_with_seq(c, "Key"@));
    assert(!sc::is_mod_code(c));
    assert(sc::code_to_key_spec(c) == seq![l]);
}

/// A digit `d` becomes `Digit<d>`, which converts back to `d`.
proof fn lemma_digit_key(d: char)
    requires
        text::is_ascii_digit(d),
    ensures
        ({
            let c = "Digit"@.push(d);
            &&& sc::key_to_code_spec(seq![d]) == Ok::<Seq<char>, Seq<char>>(c)
            &&& is_clean(c)
            &&& c.len() > 0
            &&& sc::tauri_token_to_frontend_spec(c) == seq![d]
            &&& sc::code_to_key_spec(c) == seq![d]
        }),
{
    lemma_literal_chars();
    let c = "Digit"@.push(d);
    let k = seq![d];
    assert(k.len() == 1 && k[0] == d);
    assert(c =~= seq!['D', 'i', 'g', 'i', 't', d]);
    assert(c.take(3) != "Key"@) by {
        assert(c.take(3)[0] != "Key"@[0]);
    }
    assert(c.take(5) =~= "Digit"@);
    assert(c.skip(5) =~= seq![d]);
    assert(!sc::is_mod_code(c));
    assert(sc::code_to_key_spec(c) == seq![d]);
}

/// A punctuation key becomes its named code, which converts back to it.
proof fn lemma_punct_key(p: char)
    requires
        sc::punct_key_code(p) is Some,
    ensures
        ({
            let c = sc::punct_key_code(p)->0;
            &&& sc::key_to_code_spec(seq![p]) == Ok::<Seq<char>, Seq<char>>(c)
            &&& is_clean(c)
            &&& c.len() > 0
            &&& sc::tauri_token_to_frontend_spec(c) == seq![p]
            &&& sc::code_to_key_spec(c) == seq![p]
            &&& is_plain(seq![p])
        }),
{
    lemma_literal_chars();
    let c = sc::punct_key_code(p)->0;
    let k = seq![p];
    assert(k.len() == 1 && k[0] == p);
    assert(c.len() > 3);
    assert(c[0] != 'K' && c[0] != 'D');
    assert(c.take(3) != "Key"@) by {
        assert(c.take(3)[0] != "Key"@[0]);
    }
    assert(c.take(5) != "Digit"@) by {
        assert(c.take(5)[0] != "Digit"@[0]);
    }
    assert(!sc::is_f_code(c));
    assert(!sc::is_mod_code(c));
    assert(sc::named_code_key(c) == Some(seq![p]));
    assert(sc::code_to_key_spec(c) == seq![p]);
}

/// A named key becomes its capitalised code, which converts back to it.
proof fn lemma_named_key(k: Seq<char>)
    requires
        sc::named_key_code(k) is Some,
    ensures
        ({
            let c = sc::named_key_code(k)->0;
            &&& sc::key_to_code_spec(k) == Ok::<Seq<char>, Seq<char>>(c)
            &&& is_clean(c)
            &&& c.len() > 0
            &&& sc::tauri_token_to_frontend_spec(c) == k
            &&& sc::code_to_key_spec(c) == k
            &&& is_plain(k)
            &&& k.len() > 1
            &&& k[0] != 'f'
        }),
{
    lemma_literal_chars();
    let c = sc::named_key_code(k)->0;
    assert(k.len() > 1);
    assert(k[0] != 'f');
    assert(sc::f_key_number(k) is None);
    assert(c[0] != 'K' && c[0] != 'F');
    assert(c.len() < 3 || c.take(3) != "Key"@) by {
        if c.len() >= 3 {
            assert(c.take(3)[0] != "Key"@[0]);
        }
    }
    assert(c.len() < 5 || c.take(5) != "Digit"@) by {
        if c.len() >= 5 {
            if c[0] == 'D' {
                assert(c.take(5)[1] != "Digit"@[1]);
            } else {
                assert(c.take(5)[0] != "Digit"@[0]);
            }
        }
    }
    assert(!sc::is_f_code(c));
    assert(!sc::is_mod_code(c));
    assert(sc::named_code_key(c) == Some(k));
    assert(sc::code_to_key_spec(c) == k);
}

/// `f<n>` becomes `F<n>`, which converts back to `f<n>`.
proof fn lemma_f_key(n: nat)
    requires
        1 <= n <= 24,
    ensures
        sc::key_to_code_spec(f_key_name(n)) == Ok::<Seq<char>, Seq<char>>(f_key_code(n)),
        is_clean(f_key_code(n)),
        f_key_code(n).len() > 0,
        sc::tauri_token_to_frontend_spec(f_key_code(n)) == f_key_name(n),
        sc::code_to_key_spec(f_key_code(n)) == f_key_name(n),
        is_plain(f_key_name(n)),
        f_key_name(n)[0] == 'f',
        f_key_name(n).len() > 1,
{
    lemma_literal_chars();
    lemma_decimal_small(n);
    let d = text::decimal_seq(n);
    let k = f_key_name(n);
    let c = f_key_code(n);
    assert(k.skip(1) =~= d);
    assert(c.skip(1) =~= d);
    assert(k[0] == 'f' && c[0] == 'F');
    assert(2 <= k.len() <= 3);
    assert(sc::f_key_number(k) == Some(n as u8));
    assert(sc::key_to_code_spec(k) == Ok::<Seq<char>, Seq<char>>(c));
    assert(c.len() < 3 || c.take(3) != "Key"@) by {
        if c.len() >= 3 {
            assert(c.take(3)[0] != "Key"@[0]);
        }
    }
    assert(sc::is_f_code(c));
    assert(!sc::is_mod_code(c)) by {
        if c.len() == 3 {
            assert(c[0] != "Alt"@[0]);
        }
    }
    assert(c != "Alt"@) by {
        if c.len() == 3 {
            assert(c[0] != "Alt"@[0]);
        }
    }
    assert(vstd::utf8::is_ascii_chars(c));
    assert(text::ascii_lowercase(c) =~= k);
    assert(sc::code_to_key_spec(c) == k);
}

proof fn lemma_canonical_key(k: Seq<char>)
    requires
        is_canonical_key(k),
    ensures
        sc::key_to_code_spec(k) is Ok,
        is_clean(sc::key_to_code_spec(k)->Ok_0),
        sc::key_to_code_spec(k)->Ok_0.len() > 0,
        sc::tauri_token_to_frontend_spec(sc::key_to_code_spec(k)->Ok_0) == k,
        sc::code_to_key_spec(sc::key_to_code_spec(k)->Ok_0) == k,
        is_plain(k),
        k.len() > 0,
        !sc::is_mod_token(k),
        !sc::is_alt_token(k),
        k != "shift"@,
{
    lemma_literal_chars();
    if k.len() == 1 && (text::is_ascii_lower(k[0]) || text::is_ascii_digit(k[0])
        || sc::punct_key_code(k[0]) is Some) {
        assert(k =~= seq![k[0]]);
        if text::is_ascii_lower(k[0]) {
            lemma_letter_key(k[0]);
        } else if text::is_ascii_digit(k[0]) {
            lemma_digit_key(k[0]);
        } else {
            lemma_punct_key(k[0]);
        }
    } else if sc::named_key_code(k) is Some {
        lemma_named_key(k);
    } else {
        let n = choose|n: nat| 1 <= n <= 24 && k == #[trigger] f_key_name(n);
        lemma_f_key(n);
    }
}

proof fn lemma_canonical_token(t: Seq<char>)
    requires
        is_canonical_token(t),
    ensures
        sc::frontend_token_to_code_spec(t) is Ok,
        is_clean(sc::frontend_token_to_code_spec(t)->Ok_0),
        sc::frontend_token_to_code_spec(t)->Ok_0.len() > 0,
        sc::tauri_token_to_frontend_spec(sc::frontend_token_to_code_spec(t)->Ok_0) == t,
        is_plain(t),
        t.len() > 0,
{
    lemma_literal_chars();
    if t == "mod"@ || t == "alt"@ || t == "shift"@ {
    } else {
        lemma_canonical_key(t);
    }
}

/// Every code that a token converts to converts back to a canonical token
/// with the same code.
proof fn lemma_token_image(t: Seq<char>)
    requires
        sc::frontend_token_to_code_spec(t) is Ok,
    ensures
        ({
            let c = sc::frontend_token_to_code_spec(t)->Ok_0;
            let b = sc::tauri_token_to_frontend_spec(c);
            &&& is_canonical_token(b)
            &&& sc::frontend_token_to_code_spec(b) == Ok::<Seq<char>, Seq<char>>(c)
            &&& is_clean(c)
            &&& c.len() > 0
        }),
{
    lemma_literal_chars();
    let c = sc::frontend_token_to_code_spec(t)->Ok_0;
    if sc::is_mod_token(t) || sc::is_alt_token(t) || t == "shift"@ {
    } else if t.len() == 1 && text::is_ascii_char(t[0]) {
        assert(t =~= seq![t[0]]);
        if text::is_ascii_alpha(t[0]) {
            lemma_letter_key(t[0]);
            let l = text::ascii_lower_char(text::ascii_upper_char(t[0]));
            lemma_letter_key(l);
            lemma_canonical_key(seq![l]);
        } else if text::is_ascii_digit(t[0]) {
            lemma_digit_key(t[0]);
            lemma_canonical_key(t);
        } else {
            lemma_punct_key(t[0]);
            lemma_canonical_key(t);
        }
    } else if sc::f_key_number(t) is Some {
        let n = sc::f_key_number(t)->0 as nat;
        lemma_f_key(n);
        assert(c == f_key_code(n));
        assert(is_canonical_key(f_key_name(n)));
        lemma_canonical_key(f_key_name(n));
    } else {
        lemma_named_key(t);
        lemma_canonical_key(t);
    }
}

pub open spec fn token_codes(ts: Seq<Seq<char>>) -> Seq<Seq<char>> {
    ts.map_values(|t: Seq<char>| sc::frontend_token_to_code_spec(t)->Ok_0)
}

proof fn lemma_tokens_ok(ts: Seq<Seq<char>>)
    requires
        forall|i: int| 0 <= i < ts.len() ==> (#[trigger] sc::frontend_token_to_code_spec(ts[i])) is Ok,
    ensures
        sc::tokens_to_codes(ts) == Ok::<Seq<Seq<char>>, Seq<char>>(token_codes(ts)),
    decreases ts.len(),
{
    if ts.len() > 0 {
        let rest = ts.drop_first();
        assert forall|i: int| 0 <= i < rest.len() implies (#[trigger] sc::frontend_token_to_code_spec(
            rest[i],
        )) is Ok by {
            assert(rest[i] == ts[i + 1]);
        }
        lemma_tokens_ok(rest);
        assert(sc::frontend_token_to_code_spec(ts[0]) is Ok);
        assert(seq![sc::frontend_token_to_code_spec(ts[0])->Ok_0] + token_codes(rest) =~= token_codes(
            ts,
        ));
    } else {
        assert(token_codes(ts) =~= Seq::<Seq<char>>::empty());
    }
}

proof fn lemma_tokens_result(ts: Seq<Seq<char>>)
    requires
        sc::tokens_to_codes(ts) is Ok,
    ensures
        forall|i: int| 0 <= i < ts.len() ==> (#[trigger] sc::frontend_token_to_code_spec(ts[i])) is Ok,
        sc::tokens_to_codes(ts) == Ok::<Seq<Seq<char>>, Seq<char>>(token_codes(ts)),
    decreases ts.len(),
{
    if ts.len() > 0 {
        let rest = ts.drop_first();
        lemma_tokens_result(rest);
        assert forall|i: int| 0 <= i < ts.len() implies (#[trigger] sc::frontend_token_to_code_spec(
            ts[i],
        )) is Ok by {
            if i > 0 {
                assert(ts[i] == rest[i - 1]);
            }
        }
        lemma_tokens_ok(ts);
    } else {
        assert(token_codes(ts) =~= Seq::<Seq<char>>::empty());
    }
}

/// Trimming and lower-casing leave plain parts unchanged, so the frontend
/// tokens of a string whose parts are all plain are its parts.
proof fn lemma_plain_tokens(s: Seq<char>)
    requires
        forall|i: int|
            0 <= i < text::split_on(s, '+').len() ==> is_plain(#[trigger] text::split_on(s, '+')[i]),
    ensures
        sc::frontend_tokens(s) == text::split_on(s, '+'),
{
    let parts = text::split_on(s, '+');
    assert forall|i: int| 0 <= i < parts.len() implies #[trigger] sc::frontend_tokens(s)[i]
        == parts[i] by {
        let p = parts[i];
        text::lemma_trim_no_whitespace(p);
        text::lemma_ascii_lowercase_identity(p);
    }
    assert(sc::frontend_tokens(s) =~= parts);
}

/// Splitting a hotkey string made of clean codes and mapping each part back
/// gives the mapped codes.
proof fn lemma_tauri_tokens_of_join(codes: Seq<Seq<char>>)
    requires
        codes.len() >= 1,
        forall|i: int| 0 <= i < codes.len() ==> is_clean(#[trigger] codes[i]),
    ensures
        sc::tauri_tokens(text::join_with(codes, seq!['+'])) == codes.map_values(
            |c: Seq<char>| sc::tauri_token_to_frontend_spec(c),
        ),
{
    let t = text::join_with(codes, seq!['+']);
    assert forall|i: int| 0 <= i < codes.len() implies !(#[trigger] codes[i]).contains('+') by {}
    text::lemma_split_join(codes, '+');
    assert forall|i: int| 0 <= i < codes.len() implies #[trigger] sc::tauri_tokens(t)[i]
        == sc::tauri_token_to_frontend_spec(codes[i]) by {
        text::lemma_trim_no_whitespace(codes[i]);
    }
    assert(sc::tauri_tokens(t) =~= codes.map_values(
        |c: Seq<char>| sc::tauri_token_to_frontend_spec(c),
    ));
}

/// A canonical key converts to a hotkey code that converts back to the key
/// (`map_code_to_key` undoes `map_key_to_code`).
pub proof fn law_key_code_roundtrip(k: Seq<char>)
    requires
        is_canonical_key(k),
    ensures
        sc::key_to_code_spec(k) matches Ok(c) && sc::code_to_key_spec(c) == k,
{
    lemma_canonical_key(k);
}

/// Converting a key's code back and converting again gives the same code.
pub proof fn law_key_code_stable(k: Seq<char>)
    requires
        sc::key_to_code_spec(k) is Ok,
    ensures
        is_canonical_key(sc::code_to_key_spec(sc::key_to_code_spec(k)->Ok_0)),
        sc::key_to_code_spec(sc::code_to_key_spec(sc::key_to_code_spec(k)->Ok_0))
            == sc::key_to_code_spec(k),
{
    lemma_literal_chars();
    if k.len() == 1 && text::is_ascii_char(k[0]) {
        assert(k =~= seq![k[0]]);
        if text::is_ascii_alpha(k[0]) {
            lemma_letter_key(k[0]);
            let l = text::ascii_lower_char(text::ascii_upper_char(k[0]));
            lemma_letter_key(l);
        } else if text::is_ascii_digit(k[0]) {
            lemma_digit_key(k[0]);
        } else {
            lemma_punct_key(k[0]);
        }
    } else if sc::f_key_number(k) is Some {
        let n = sc::f_key_number(k)->0 as nat;
        lemma_f_key(n);
        assert(is_canonical_key(f_key_name(n)));
    } else {
        lemma_named_key(k);
    }
}

/// A shortcut whose parts are canonical frontend tokens converts to the
/// hotkey notation, and converting that back gives the shortcut unchanged.
pub proof fn law_canonical_shortcut_roundtrip(f: Seq<char>)
    requires
        is_canonical_shortcut(f),
    ensures
        sc::frontend_to_tauri_spec(f) matches Ok(t) && sc::tauri_to_frontend_spec(t) == f,
{
    let parts = text::split_on(f, '+');
    text::lemma_split_nonempty(f, '+');
    assert forall|i: int| 0 <= i < parts.len() implies is_plain(#[trigger] parts[i])
        && (sc::frontend_token_to_code_spec(parts[i])) is Ok by {
        lemma_canonical_token(parts[i]);
    }
    lemma_plain_tokens(f);
    lemma_tokens_ok(parts);
    let codes = token_codes(parts);
    assert forall|i: int| 0 <= i < codes.len() implies is_clean(#[trigger] codes[i])
        && sc::tauri_token_to_frontend_spec(codes[i]) == parts[i] by {
        lemma_canonical_token(parts[i]);
    }
    lemma_tauri_tokens_of_join(codes);
    assert(codes.map_values(|c: Seq<char>| sc::tauri_token_to_frontend_spec(c)) =~= parts);
    text::lemma_join_split(f, '+');
}

/// Whatever a successful conversion gives, converting it back yields a
/// shortcut of canonical tokens that converts to the same hotkey string.
pub proof fn law_conversion_stable(f: Seq<char>)
    requires
        sc::frontend_to_tauri_spec(f) is Ok,
    ensures
        is_canonical_shortcut(sc::tauri_to_frontend_spec(sc::frontend_to_tauri_spec(f)->Ok_0)),
        sc::frontend_to_tauri_spec(sc::tauri_to_frontend_spec(sc::frontend_to_tauri_spec(f)->Ok_0))
            == sc::frontend_to_tauri_spec(f),
{
    let ts = sc::frontend_tokens(f);
    text::lemma_split_nonempty(f, '+');
    lemma_tokens_result(ts);
    let codes = token_codes(ts);
    let t = text::join_with(codes, seq!['+']);
    assert(sc::frontend_to_tauri_spec(f) == Ok::<Seq<char>, Seq<char>>(t));
    assert forall|i: int| 0 <= i < codes.len() implies is_clean(#[trigger] codes[i]) by {
        lemma_token_image(ts[i]);
    }
    lemma_tauri_tokens_of_join(codes);
    let bs = codes.map_values(|c: Seq<char>| sc::tauri_token_to_frontend_spec(c));
    let g = text::join_with(bs, seq!['+']);
    assert forall|i: int| 0 <= i < bs.len() implies is_canonical_token(#[trigger] bs[i])
        && is_plain(bs[i]) && sc::frontend_token_to_code_spec(bs[i]) == Ok::<Seq<char>, Seq<char>>(
        codes[i],
    ) by {
        lemma_token_image(ts[i]);
        lemma_canonical_token(bs[i]);
    }
    assert forall|i: int| 0 <= i < bs.len() implies !(#[trigger] bs[i]).contains('+') by {}
    text::lemma_split_join(bs, '+');
    assert(text::split_on(g, '+') == bs);
    lemma_plain_tokens(g);
    lemma_tokens_ok(bs);
    assert(token_codes(bs) =~= codes);
}

proof fn lemma_tokens_concat(x: Seq<Seq<char>>, y: Seq<Seq<char>>)
    ensures
        sc::tokens_to_codes(x + y) == match sc::tokens_to_codes(x) {
            Err(m) => Err(m),
            Ok(cx) => match sc::tokens_to_codes(y) {
                Ok(cy) => Ok(cx + cy),
                Err(m) => Err(m),
            },
        },
    decreases x.len(),
{
    if x.len() == 0 {
        assert(x + y =~= y);
        match sc::tokens_to_codes(y) {
            Ok(cy) => {
                assert(Seq::<Seq<char>>::empty() + cy =~= cy);
            },
            Err(_) => {},
        }
    } else {
        assert((x + y)[0] == x[0]);
        assert((x + y).drop_first() =~= x.drop_first() + y);
        lemma_tokens_concat(x.drop_first(), y);
        match (sc::tokens_to_codes(x.drop_first()), sc::tokens_to_codes(y)) {
            (Ok(cx), Ok(cy)) => {
                match sc::frontend_token_to_code_spec(x[0]) {
                    Ok(c) => {
                        assert(seq![c] + (cx + cy) =~= (seq![c] + cx) + cy);
                    },
                    Err(_) => {},
                }
            },
            _ => {},
        }
    }
}

/// Converting `a+b` converts `a` and `b` separately and joins the results
/// with `+`; the error of `a` comes first, then that of `b`.
pub proof fn law_frontend_concat(a: Seq<char>, b: Seq<char>)
    ensures
        sc::frontend_to_tauri_spec(a + seq!['+'] + b) == match (
            sc::frontend_to_tauri_spec(a),
            sc::frontend_to_tauri_spec(b),
        ) {
            (Ok(x), Ok(y)) => Ok(x + seq!['+'] + y),
            (Err(e), _) => Err(e),
            (Ok(_), Err(e)) => Err(e),
        },
{
    let s = a + seq!['+'] + b;
    text::lemma_split_concat(a, b, '+');
    text::lemma_split_nonempty(a, '+');
    text::lemma_split_nonempty(b, '+');
    let ta = sc::frontend_tokens(a);
    let tb = sc::frontend_tokens(b);
    assert(sc::frontend_tokens(s) =~= ta + tb);
    lemma_tokens_concat(ta, tb);
    if sc::tokens_to_codes(ta) is Ok && sc::tokens_to_codes(tb) is Ok {
        lemma_tokens_result(ta);
        lemma_tokens_result(tb);
        text::lemma_join_concat(token_codes(ta), token_codes(tb), seq!['+']);
    }
}

/// A new shortcut (already trimmed and lower-cased, and not empty) is
/// accepted exactly when every one of its `+`-separated tokens converts to a
/// hotkey token, and is then kept as given; otherwise the update fails with
/// the error that converting the whole shortcut gives, which names the first
/// token without a code.
pub proof fn law_update_accepts_iff_every_token_converts(s: Seq<char>)
    requires
        s.len() > 0,
    ensures
        (sc::shortcut_update_spec(s) is Ok) == (forall|i: int|
            0 <= i < sc::frontend_tokens(s).len() ==> (#[trigger] sc::frontend_token_to_code_spec(
                sc::frontend_tokens(s)[i],
            )) is Ok),
        sc::shortcut_update_spec(s) is Ok ==> sc::shortcut_update_spec(s) == Ok::<
            Seq<char>,
            Seq<char>,
        >(s),
        sc::shortcut_update_spec(s) is Err ==> sc::shortcut_update_spec(s)
            == sc::frontend_to_tauri_spec(s),
{
    let ts = sc::frontend_tokens(s);
    if forall|i: int| 0 <= i < ts.len() ==> (#[trigger] sc::frontend_token_to_code_spec(ts[i])) is Ok {
        lemma_tokens_ok(ts);
    }
    if sc::tokens_to_codes(ts) is Ok {
        lemma_tokens_result(ts);
    }
}

} // verus!
