use codeg::error::AppErrorCode;
use codeg::shortcut::{
    check_normalized_shortcut, frontend_to_tauri, frontend_token_to_tauri,
    frontend_tokens_to_tauri, map_code_to_key, map_key_to_code, normalize_shortcut_update,
    startup_shortcut, stored_shortcut_or_default, tauri_to_frontend, tauri_token_to_frontend,
    toggle_visibility_action, VisibilityAction, DEFAULT_SHORTCUT_FRONTEND, GLOBAL_SHORTCUT_DB_KEY,
};

#[test]
fn test_frontend_to_tauri_basic() {
    assert_eq!(
        frontend_to_tauri("mod+shift+g").unwrap(),
        "CmdOrCtrl+Shift+KeyG"
    );
    assert_eq!(frontend_to_tauri("alt+shift+g").unwrap(), "Alt+Shift+KeyG");
    assert_eq!(frontend_to_tauri("mod+k").unwrap(), "CmdOrCtrl+KeyK");
    assert_eq!(frontend_to_tauri("mod+1").unwrap(), "CmdOrCtrl+Digit1");
    assert_eq!(frontend_to_tauri("alt+space").unwrap(), "Alt+Space");
    assert_eq!(frontend_to_tauri("mod+f1").unwrap(), "CmdOrCtrl+F1");
}

#[test]
fn test_tauri_to_frontend_basic() {
    assert_eq!(tauri_to_frontend("CmdOrCtrl+Shift+KeyG"), "mod+shift+g");
    assert_eq!(tauri_to_frontend("Alt+Shift+KeyG"), "alt+shift+g");
    assert_eq!(tauri_to_frontend("CmdOrCtrl+KeyK"), "mod+k");
    assert_eq!(tauri_to_frontend("CmdOrCtrl+Digit1"), "mod+1");
    assert_eq!(tauri_to_frontend("Alt+Space"), "alt+space");
}

#[test]
fn test_roundtrip() {
    let cases = vec![
        "mod+shift+g",
        "alt+shift+g",
        "mod+k",
        "alt+space",
        "mod+f12",
        "mod+shift+escape",
    ];
    for frontend in cases {
        let tauri_str = frontend_to_tauri(frontend).unwrap();
        let back = tauri_to_frontend(&tauri_str);
        assert_eq!(back, frontend, "roundtrip failed for: {}", frontend);
    }
}

#[test]
fn frontend_aliases_whitespace_and_case() {
    assert_eq!(
        frontend_to_tauri(" Ctrl + Option + A ").unwrap(),
        "CmdOrCtrl+Alt+KeyA"
    );
    assert_eq!(frontend_to_tauri("cmd+command+meta+control").unwrap(), "CmdOrCtrl+CmdOrCtrl+CmdOrCtrl+CmdOrCtrl");
    assert_eq!(frontend_to_tauri("SHIFT+ENTER").unwrap(), "Shift+Enter");
}

#[test]
fn frontend_function_keys() {
    assert_eq!(frontend_to_tauri("f24").unwrap(), "F24");
    assert_eq!(frontend_to_tauri("f05").unwrap(), "F5");
    assert_eq!(frontend_to_tauri("f+5").unwrap(), "KeyF+Digit5");
    assert_eq!(map_key_to_code("f+5").unwrap(), "F5");
    assert_eq!(map_key_to_code("f25").unwrap_err().message, "Unsupported key: f25");
    assert_eq!(map_key_to_code("f0").unwrap_err().message, "Unsupported key: f0");
    assert_eq!(map_key_to_code("f").unwrap(), "KeyF");
}

#[test]
fn frontend_errors() {
    let e = frontend_to_tauri("mod+hyper+%").unwrap_err();
    assert_eq!(e.code, AppErrorCode::InvalidInput);
    assert_eq!(e.message, "Unsupported key: hyper");
    assert!(e.detail.is_none());
    assert_eq!(frontend_to_tauri("").unwrap_err().message, "Unsupported key: ");
    assert_eq!(frontend_to_tauri("mod+").unwrap_err().message, "Unsupported key: ");
    assert_eq!(map_key_to_code("%").unwrap_err().message, "Unsupported key: %");
    assert_eq!(map_key_to_code("é").unwrap_err().message, "Unsupported key: é");
}

#[test]
fn key_codes_punctuation_and_named() {
    let pairs = [
        ("[", "BracketLeft"),
        ("]", "BracketRight"),
        ("\\", "Backslash"),
        ("/", "Slash"),
        (",", "Comma"),
        (".", "Period"),
        (";", "Semicolon"),
        ("'", "Quote"),
        ("`", "Backquote"),
        ("-", "Minus"),
        ("=", "Equal"),
        ("space", "Space"),
        ("escape", "Escape"),
        ("enter", "Enter"),
        ("tab", "Tab"),
        ("backspace", "Backspace"),
        ("delete", "Delete"),
        ("arrowup", "ArrowUp"),
        ("arrowdown", "ArrowDown"),
        ("arrowleft", "ArrowLeft"),
        ("arrowright", "ArrowRight"),
    ];
    for (key, code) in pairs {
        assert_eq!(map_key_to_code(key).unwrap(), code);
        assert_eq!(map_code_to_key(code), key);
    }
    assert_eq!(map_key_to_code("A").unwrap(), "KeyA");
    assert_eq!(map_key_to_code("7").unwrap(), "Digit7");
}

#[test]
fn code_to_key_fallbacks() {
    assert_eq!(map_code_to_key("KeyQ"), "q");
    assert_eq!(map_code_to_key("Digit0"), "0");
    assert_eq!(map_code_to_key("F0"), "f0");
    assert_eq!(map_code_to_key("F99"), "f99");
    assert_eq!(map_code_to_key("NumpadEnter"), "numpadenter");
    assert_eq!(map_code_to_key("Ä"), "ä");
    assert_eq!(tauri_to_frontend("Super + Control+Command+CommandOrControl"), "mod+mod+mod+mod");
    assert_eq!(tauri_token_to_frontend("Shift"), "shift");
}

#[test]
fn token_level_functions() {
    assert_eq!(frontend_token_to_tauri("option").unwrap(), "Alt");
    assert_eq!(frontend_token_to_tauri("x").unwrap(), "KeyX");
    let tokens = vec!["mod".to_string(), "bad".to_string(), "zz".to_string()];
    assert_eq!(frontend_tokens_to_tauri(&tokens).unwrap_err().message, "Unsupported key: bad");
    let tokens = vec!["alt".to_string(), "f3".to_string()];
    assert_eq!(frontend_tokens_to_tauri(&tokens).unwrap(), "Alt+F3");
}

#[test]
fn law_stability_examples() {
    for f in ["Ctrl+F05", "option+A", "mod+shift+=", "f+9"] {
        if let Ok(t) = frontend_to_tauri(f) {
            let back = tauri_to_frontend(&t);
            assert_eq!(frontend_to_tauri(&back).unwrap(), t);
        }
    }
    assert_eq!(tauri_to_frontend(&frontend_to_tauri("Ctrl+F05").unwrap()), "mod+f5");
}

#[test]
fn shortcut_choices() {
    assert_eq!(DEFAULT_SHORTCUT_FRONTEND, "alt+shift+g");
    assert_eq!(GLOBAL_SHORTCUT_DB_KEY, "global_shortcut");
    assert_eq!(startup_shortcut(None), "alt+shift+g");
    assert_eq!(startup_shortcut(Some(String::new())), "alt+shift+g");
    assert_eq!(startup_shortcut(Some("mod+k".to_string())), "mod+k");
    assert_eq!(stored_shortcut_or_default(None), "alt+shift+g");
    assert_eq!(stored_shortcut_or_default(Some(String::new())), "");
    assert_eq!(stored_shortcut_or_default(Some("mod+j".to_string())), "mod+j");
}

#[test]
fn shortcut_update_checks() {
    assert_eq!(normalize_shortcut_update("  Mod+Shift+K ").unwrap(), "mod+shift+k");
    let e = normalize_shortcut_update("   ").unwrap_err();
    assert_eq!(e.code, AppErrorCode::InvalidInput);
    assert_eq!(e.message, "Shortcut string must not be empty");
    assert_eq!(normalize_shortcut_update("mod+nope").unwrap_err().message, "Unsupported key: nope");
    assert_eq!(check_normalized_shortcut(String::new()).unwrap_err().message, "Shortcut string must not be empty");
    assert_eq!(check_normalized_shortcut("alt+f2".to_string()).unwrap(), "alt+f2");
}

#[test]
fn visibility_toggle() {
    assert_eq!(toggle_visibility_action(&vec![]), VisibilityAction::Nothing);
    assert_eq!(toggle_visibility_action(&vec![false, true]), VisibilityAction::HideAll);
    assert_eq!(toggle_visibility_action(&vec![false, false]), VisibilityAction::ShowAndFocusAll);
}

#[test]
fn key_code_stability_examples() {
    for key in ["A", "q", "f+7", "f07", "9", "=", "tab"] {
        let code = map_key_to_code(key).unwrap();
        let back = map_code_to_key(&code);
        assert_eq!(map_key_to_code(&back).unwrap(), code);
    }
    assert_eq!(map_code_to_key(&map_key_to_code("A").unwrap()), "a");
    assert_eq!(map_code_to_key(&map_key_to_code("f07").unwrap()), "f7");
}

#[test]
fn concatenation_converts_part_by_part() {
    let pairs = [("mod", "shift+k"), ("alt", "bogus"), ("nope", "k"), ("", "x")];
    for (a, b) in pairs {
        let whole = frontend_to_tauri(&format!("{a}+{b}"));
        match (frontend_to_tauri(a), frontend_to_tauri(b)) {
            (Ok(x), Ok(y)) => assert_eq!(whole.unwrap(), format!("{x}+{y}")),
            (Err(e), _) => assert_eq!(whole.unwrap_err().message, e.message),
            (Ok(_), Err(e)) => assert_eq!(whole.unwrap_err().message, e.message),
        }
    }
    assert_eq!(frontend_to_tauri("mod+shift+k").unwrap(), "CmdOrCtrl+Shift+KeyK");
}
