use vt::protocol::{
    determine_protocol, is_kitty_available, is_sixel_available, protocol_from_name, version_gte,
    wezterm_sixel_supported, ImageProtocol, TermEnv,
};

fn empty_env() -> TermEnv {
    TermEnv {
        kitty_window_id: None,
        kitty_pid: None,
        ghostty_resources_dir: None,
        term_program: None,
        term_program_version: None,
        konsole_version: None,
        term: None,
        foot_version: None,
        wezterm_version: None,
    }
}

fn program(name: &str, version: Option<&str>) -> TermEnv {
    let mut env = empty_env();
    env.term_program = Some(name.to_string());
    env.term_program_version = version.map(|v| v.to_string());
    env
}

#[test]
fn forced_names() {
    let env = empty_env();
    assert_eq!(determine_protocol(Some("KITTY"), &env), ImageProtocol::Kitty);
    assert_eq!(determine_protocol(Some("Sixel"), &env), ImageProtocol::Sixel);
    assert_eq!(determine_protocol(Some("halfblock"), &env), ImageProtocol::HalfBlock);
    assert_eq!(determine_protocol(Some("braille"), &env), ImageProtocol::Braille);
    assert_eq!(determine_protocol(Some("ASCII"), &env), ImageProtocol::Ascii);
    assert_eq!(determine_protocol(Some("auto"), &env), ImageProtocol::HalfBlock);
    assert_eq!(determine_protocol(None, &env), ImageProtocol::HalfBlock);
    let mut kitty = empty_env();
    kitty.kitty_pid = Some("1".to_string());
    assert_eq!(determine_protocol(Some("ascii"), &kitty), ImageProtocol::Ascii);
    assert_eq!(determine_protocol(Some("nonsense"), &kitty), ImageProtocol::Kitty);
}

#[test]
fn names_are_case_sensitive_below_detection() {
    assert_eq!(protocol_from_name("ascii"), Some(ImageProtocol::Ascii));
    assert_eq!(protocol_from_name("kitty"), Some(ImageProtocol::Kitty));
    assert_eq!(protocol_from_name("ASCII"), None);
    assert_eq!(protocol_from_name("auto"), None);
}

#[test]
fn kitty_detection() {
    let mut env = empty_env();
    assert!(!is_kitty_available(&env));
    env.kitty_window_id = Some(String::new());
    assert!(is_kitty_available(&env));
    let mut env = empty_env();
    env.ghostty_resources_dir = Some("/x".to_string());
    assert!(is_kitty_available(&env));
    for p in ["kitty", "ghostty", "rio", "WezTerm"] {
        assert!(is_kitty_available(&program(p, None)));
    }
    assert!(is_kitty_available(&program("iterm.app", Some("3.4.0"))));
    assert!(!is_kitty_available(&program("iterm.app", Some("3.3.9"))));
    assert!(!is_kitty_available(&program("iterm.app", None)));
    let mut env = program("konsole", None);
    env.konsole_version = Some("220400".to_string());
    assert!(is_kitty_available(&env));
    env.konsole_version = Some("220399".to_string());
    assert!(!is_kitty_available(&env));
    env.konsole_version = Some("new".to_string());
    assert!(!is_kitty_available(&env));
    let mut env = empty_env();
    env.term = Some("xterm-KITTY".to_string());
    assert!(is_kitty_available(&env));
    env.term = Some("xterm-ghostty".to_string());
    assert!(is_kitty_available(&env));
    env.term = Some("xterm-256color".to_string());
    assert!(!is_kitty_available(&env));
}

#[test]
fn sixel_detection() {
    let mut env = empty_env();
    assert!(!is_sixel_available(&env));
    env.foot_version = Some("1.16".to_string());
    assert!(is_sixel_available(&env));
    let mut env = empty_env();
    env.term = Some("Foot-extra".to_string());
    assert!(is_sixel_available(&env));
    env.term = Some("mlterm".to_string());
    assert!(is_sixel_available(&env));
    env.term = Some("xterm".to_string());
    assert!(!is_sixel_available(&env));
    assert!(is_sixel_available(&program("vscode", Some("1.85.0"))));
    assert!(!is_sixel_available(&program("vscode", Some("1.79.9"))));
    assert!(is_sixel_available(&program("rio", Some("12.0"))));
    assert!(!is_sixel_available(&program("rio", Some("0.9"))));
    assert!(is_sixel_available(&program("mintty", None)));
    let mut env = program("WezTerm", None);
    env.wezterm_version = Some("2022.6".to_string());
    assert!(is_sixel_available(&env));
    env.wezterm_version = Some("20240203-110809-5046fc22".to_string());
    assert!(!is_sixel_available(&env));
    let mut env = program("konsole", None);
    env.konsole_version = Some("230800".to_string());
    assert!(is_sixel_available(&env));
}

#[test]
fn detection_order() {
    assert_eq!(determine_protocol(None, &program("vscode", Some("1.90"))), ImageProtocol::Sixel);
    let mut both = program("konsole", None);
    both.konsole_version = Some("230000".to_string());
    assert_eq!(determine_protocol(None, &both), ImageProtocol::Kitty);
    assert_eq!(determine_protocol(None, &program("xterm", None)), ImageProtocol::HalfBlock);
}

#[test]
fn version_comparisons() {
    assert!(version_gte("3.4", 3, 4, 0));
    assert!(version_gte("3.10.1", 3, 4, 0));
    assert!(!version_gte("2.99", 3, 0, 0));
    assert!(version_gte("abc", 0, 0, 0));
    assert!(!version_gte("abc", 0, 0, 1));
    assert!(version_gte("1.x.5", 1, 0, 5));
    assert!(version_gte("1.2.3.4", 1, 2, 3));
    assert!(!version_gte("1.2", 1, 2, 1));
}

#[test]
fn wezterm_versions() {
    assert!(wezterm_sixel_supported("2022.6"));
    assert!(wezterm_sixel_supported("2023.1"));
    assert!(!wezterm_sixel_supported("2022.05"));
    assert!(!wezterm_sixel_supported("20220624-141144-bd1b7c5d"));
}
