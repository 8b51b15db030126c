use fadewire_core::config::{CategoryDef, Config, FaderConfig, FaderKind, Target};
use fadewire_core::engine::{
    drive_fader, fader_index_by_label, initial_level, physical_input, Driven, VolumeWrite,
};
use fadewire_core::mixer::{SinkNode, StreamNode, World};

fn sink(index: u32, description: &str) -> SinkNode {
    SinkNode {
        index,
        name: format!("alsa_output.{index}"),
        description: description.into(),
        channels: 2,
        volume_pct: 100,
    }
}

fn stream(index: u32, binary: &str, channels: u8) -> StreamNode {
    StreamNode {
        index,
        app_name: binary.into(),
        binary: binary.into(),
        channels,
        volume_pct: 100,
    }
}

fn config() -> Config {
    Config {
        fader: vec![
            FaderConfig {
                label: "Game".into(),
                target: Target::Sink {
                    name_match: "game".into(),
                },
                ..FaderConfig::default()
            },
            FaderConfig {
                label: "Everything Else".into(),
                kind: FaderKind::Virtual,
                target: Target::Unassigned,
                ..FaderConfig::default()
            },
        ],
        category: vec![CategoryDef {
            name: "Music".into(),
            members: vec!["spotify".into()],
        }],
    }
}

fn world() -> World {
    World {
        sinks: vec![sink(1, "Maxwell Game"), sink(2, "HDMI")],
        streams: vec![stream(10, "discord", 2), stream(11, "spotify", 2), stream(12, "mpv", 6)],
    }
}

fn write(stream: bool, index: u32, channels: u8, pct: u32, first_time: bool) -> VolumeWrite {
    VolumeWrite {
        stream,
        index,
        channels,
        pct,
        first_time,
    }
}

#[test]
fn catch_up_pass_writes_new_nodes_once() {
    let cfg = config();
    let w = world();
    let mut driven = Driven::new();
    let first = drive_fader(&cfg, 1, 40, &w, &mut driven, false);
    assert_eq!(
        first,
        vec![write(true, 10, 2, 40, true), write(true, 12, 6, 40, true)]
    );
    // Same world again: nothing new, nothing written.
    let again = drive_fader(&cfg, 1, 40, &w, &mut driven, false);
    assert!(again.is_empty());
    assert!(driven.contains((1, true, 10)));
    assert!(driven.contains((1, true, 12)));
    assert!(!driven.contains((1, true, 11)));
}

#[test]
fn forced_pass_writes_every_target() {
    let cfg = config();
    let w = world();
    let mut driven = Driven::new();
    drive_fader(&cfg, 1, 40, &w, &mut driven, false);
    let forced = drive_fader(&cfg, 1, 55, &w, &mut driven, true);
    assert_eq!(
        forced,
        vec![write(true, 10, 2, 55, false), write(true, 12, 6, 55, false)]
    );
    let sinks = drive_fader(&cfg, 0, 70, &w, &mut driven, true);
    assert_eq!(sinks, vec![write(false, 1, 2, 70, true)]);
}

#[test]
fn vanished_nodes_are_forgotten_and_redriven() {
    let cfg = config();
    let w = world();
    let mut driven = Driven::new();
    drive_fader(&cfg, 1, 40, &w, &mut driven, false);
    // mpv exits.
    let smaller = World {
        sinks: w.sinks.clone(),
        streams: vec![stream(10, "discord", 2), stream(11, "spotify", 2)],
    };
    driven.retain_present(&smaller);
    assert!(driven.contains((1, true, 10)));
    assert!(!driven.contains((1, true, 12)));
    // mpv comes back under the same index: driven again.
    let back = drive_fader(&cfg, 1, 40, &w, &mut driven, false);
    assert_eq!(back, vec![write(true, 12, 6, 40, true)]);
}

#[test]
fn driven_insert_reports_newness() {
    let mut d = Driven::new();
    assert!(d.insert((0, false, 3)));
    assert!(!d.insert((0, false, 3)));
    assert!(d.insert((0, true, 3)));
    assert!(d.insert((1, false, 3)));
    assert!(d.contains((0, false, 3)));
    assert!(!d.contains((2, false, 3)));
}

#[test]
fn physical_input_reads_the_axis_and_clamps_the_cap() {
    let mut f = FaderConfig {
        axis: 2,
        max_percent: 250,
        ..FaderConfig::default()
    };
    assert_eq!(physical_input(&f, 3), Some((2, 100)));
    assert_eq!(physical_input(&f, 2), None);
    f.max_percent = 0;
    assert_eq!(physical_input(&f, 8), Some((2, 1)));
    f.max_percent = 60;
    assert_eq!(physical_input(&f, 8), Some((2, 60)));
    f.axis = -1;
    assert_eq!(physical_input(&f, 8), None);
    f.axis = 0;
    f.kind = FaderKind::Virtual;
    assert_eq!(physical_input(&f, 8), None);
}

#[test]
fn initial_levels() {
    assert_eq!(initial_level(FaderKind::Virtual, Some(65)), Some(65));
    assert_eq!(initial_level(FaderKind::Virtual, Some(140)), Some(100));
    assert_eq!(initial_level(FaderKind::Virtual, Some(-5)), Some(0));
    assert_eq!(initial_level(FaderKind::Virtual, None), None);
    assert_eq!(initial_level(FaderKind::Physical, Some(65)), None);
}

#[test]
fn fader_found_by_label_ignoring_ascii_case() {
    let cfg = config();
    assert_eq!(fader_index_by_label(&cfg, "game"), Some(0));
    assert_eq!(fader_index_by_label(&cfg, "EVERYTHING else"), Some(1));
    assert_eq!(fader_index_by_label(&cfg, "Chat"), None);
}
