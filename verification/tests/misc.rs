use fadewire_core::cli::two_args;
use fadewire_core::paths::{config, state, xdg};
use fadewire_core::pulse::{to_pct, volume_for};
use fadewire_core::state::{State, VirtualLevel};
use fadewire_core::MAX_AXES;

#[test]
fn config_path_prefers_an_absolute_xdg_dir() {
    assert_eq!(
        config(Some("/etc/xdg-conf"), Some("/home/u")),
        "/etc/xdg-conf/fadewire/config.toml"
    );
    assert_eq!(
        config(Some("relative/dir"), Some("/home/u")),
        "/home/u/.config/fadewire/config.toml"
    );
    assert_eq!(config(None, Some("/home/u/")), "/home/u/.config/fadewire/config.toml");
    assert_eq!(config(None, None), ".config/fadewire/config.toml");
}

#[test]
fn state_path_falls_back_under_home() {
    assert_eq!(
        state(None, Some("/home/u")),
        "/home/u/.local/state/fadewire/state.toml"
    );
    assert_eq!(state(Some("/run/st/"), None), "/run/st/fadewire/state.toml");
    assert_eq!(xdg(Some(""), Some("/h"), &["a", "/abs", "b"]), "/abs/b");
}

#[test]
fn two_args_or_usage() {
    let args: Vec<String> = vec!["set".into(), "Chat".into(), "40".into()];
    assert_eq!(
        two_args(&args, "set <fader> <percent>"),
        Ok(("Chat".to_string(), "40".to_string()))
    );
    assert_eq!(
        two_args(&args[..2], "set <fader> <percent>"),
        Err("usage: fadewire set <fader> <percent>".to_string())
    );
}

#[test]
fn pulse_volume_scale() {
    let norm = 0x10000;
    assert_eq!(volume_for(norm, 2, 100), (2, 0x10000));
    assert_eq!(volume_for(norm, 0, 50), (1, 0x8000));
    assert_eq!(volume_for(norm, 6, 250), (6, 0x10000));
    assert_eq!(volume_for(norm, 2, 33), (2, 21626));
    assert_eq!(to_pct(0x8000, norm), 50);
    assert_eq!(to_pct(0x10000, norm), 100);
    assert_eq!(to_pct(0x10000 - 1, norm), 99);
}

#[test]
fn default_state_is_empty() {
    assert!(State::default().fader.is_empty());
    let v = VirtualLevel::default();
    assert_eq!(v.level, 0);
    assert!(!v.muted);
    assert_eq!(MAX_AXES, 8);
}
