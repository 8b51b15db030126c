use fadewire_core::config::{CategoryDef, Config, FaderConfig, Target};
use fadewire_core::mixer::{contains_ci, eq_ci, resolve_targets, SinkNode, StreamNode, World};

fn sink(index: u32, name: &str, description: &str) -> SinkNode {
    SinkNode {
        index,
        name: name.into(),
        description: description.into(),
        channels: 2,
        volume_pct: 100,
    }
}

fn stream(index: u32, binary: &str) -> StreamNode {
    StreamNode {
        index,
        app_name: binary.into(),
        binary: binary.into(),
        channels: 2,
        volume_pct: 100,
    }
}

fn world() -> World {
    World {
        sinks: vec![
            sink(1, "alsa_output.usb-audeze", "Audeze Maxwell Game"),
            sink(2, "alsa_output.pci-hdmi", "HDMI Audio"),
        ],
        streams: vec![
            stream(10, "discord"),
            stream(11, "spotify"),
            stream(12, "factorio"),
            stream(13, "firefox"),
        ],
    }
}

fn cfg_with(faders: Vec<FaderConfig>, categories: Vec<CategoryDef>) -> Config {
    Config {
        fader: faders,
        category: categories,
    }
}

fn fader(target: Target) -> FaderConfig {
    FaderConfig {
        target,
        ..FaderConfig::default()
    }
}

#[test]
fn sink_matches_case_insensitive_substring() {
    let cfg = cfg_with(
        vec![fader(Target::Sink {
            name_match: "maxwell game".into(),
        })],
        vec![],
    );
    let w = world();
    let r = resolve_targets(&cfg, 0, &w);
    assert_eq!(r.sinks.iter().map(|s| s.index).collect::<Vec<_>>(), [1]);
    assert!(r.streams.is_empty());
}

#[test]
fn app_matches_the_binary_exactly() {
    let cfg = cfg_with(
        vec![fader(Target::App {
            binary: "Discord".into(),
        })],
        vec![],
    );
    let w = world();
    let r = resolve_targets(&cfg, 0, &w);
    assert_eq!(r.streams.iter().map(|s| s.index).collect::<Vec<_>>(), [10]);
}

#[test]
fn category_moves_its_members_together() {
    let cfg = cfg_with(
        vec![fader(Target::Category {
            name: "Music".into(),
        })],
        vec![CategoryDef {
            name: "Music".into(),
            members: vec!["spotify".into(), "amberol".into()],
        }],
    );
    let w = world();
    let r = resolve_targets(&cfg, 0, &w);
    assert_eq!(r.streams.iter().map(|s| s.index).collect::<Vec<_>>(), [11]);
}

#[test]
fn unassigned_excludes_categories_and_direct_targets() {
    let cfg = cfg_with(
        vec![
            fader(Target::App {
                binary: "discord".into(),
            }),
            fader(Target::Unassigned),
        ],
        vec![CategoryDef {
            name: "Music".into(),
            members: vec!["spotify".into()],
        }],
    );
    let w = world();
    let r = resolve_targets(&cfg, 1, &w);
    // discord is directly targeted, spotify is in a category:
    // Everything Else gets factorio + firefox only.
    assert_eq!(
        r.streams.iter().map(|s| s.index).collect::<Vec<_>>(),
        [12, 13]
    );
}

#[test]
fn missing_category_or_fader_resolves_to_nothing() {
    let cfg = cfg_with(
        vec![fader(Target::Category {
            name: "Nope".into(),
        })],
        vec![],
    );
    let w = world();
    assert!(resolve_targets(&cfg, 0, &w).streams.is_empty());
    assert!(resolve_targets(&cfg, 99, &w).streams.is_empty());
}

#[test]
fn sink_matches_on_node_name_too() {
    let cfg = cfg_with(
        vec![fader(Target::Sink {
            name_match: "PCI-HDMI".into(),
        })],
        vec![],
    );
    let w = world();
    let r = resolve_targets(&cfg, 0, &w);
    assert_eq!(r.sinks.iter().map(|s| s.index).collect::<Vec<_>>(), [2]);
    // An empty pattern matches nothing.
    let empty = cfg_with(
        vec![fader(Target::Sink {
            name_match: String::new(),
        })],
        vec![],
    );
    assert!(resolve_targets(&empty, 0, &w).sinks.is_empty());
}

#[test]
fn only_the_first_category_with_the_name_counts() {
    let cfg = cfg_with(
        vec![fader(Target::Category {
            name: "music".into(),
        })],
        vec![
            CategoryDef {
                name: "MUSIC".into(),
                members: vec!["firefox".into()],
            },
            CategoryDef {
                name: "Music".into(),
                members: vec!["spotify".into()],
            },
        ],
    );
    let w = world();
    let r = resolve_targets(&cfg, 0, &w);
    assert_eq!(r.streams.iter().map(|s| s.index).collect::<Vec<_>>(), [13]);
}

#[test]
fn unassigned_never_shares_a_stream_with_an_app_or_category_fader() {
    let cfg = cfg_with(
        vec![
            fader(Target::App {
                binary: "FACTORIO".into(),
            }),
            fader(Target::Category {
                name: "chat".into(),
            }),
            fader(Target::Unassigned),
        ],
        vec![CategoryDef {
            name: "Chat".into(),
            members: vec!["Discord".into()],
        }],
    );
    let w = world();
    let everything_else: Vec<u32> = resolve_targets(&cfg, 2, &w)
        .streams
        .iter()
        .map(|s| s.index)
        .collect();
    for other in [0usize, 1] {
        for s in resolve_targets(&cfg, other, &w).streams {
            assert!(!everything_else.contains(&s.index));
        }
    }
    assert_eq!(everything_else, vec![11, 13]);
}

#[test]
fn contains_ci_lowercases_both_sides() {
    assert!(contains_ci("Audeze Maxwell Game", "MAXWELL"));
    assert!(contains_ci("ÄPFEL", "äpf"));
    assert!(!contains_ci("Audeze", ""));
    assert!(!contains_ci("HDMI", "hdmi audio"));
}

#[test]
fn eq_ci_folds_only_ascii() {
    assert!(eq_ci("Discord", "dISCORD"));
    assert!(!eq_ci("Ä", "ä"));
    assert!(!eq_ci("disc", "discord"));
    assert!(eq_ci("", ""));
}
