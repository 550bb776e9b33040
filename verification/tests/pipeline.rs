use twitchmotes::naming::{asset_url, dec_string, hex_string, staged_file_name};
use twitchmotes::records::{EmoteOrigin, EmoteRecord, RunError};
use twitchmotes::registry::{build_catalogue, mapping_text, scanned_records, staged_names};
use twitchmotes::remote::{assign_remote_codepoints, ChannelFetch, RemoteEmote};
use twitchmotes::scan::{extension_is_png, scan_custom_emotes, LocalEntry};
use twitchmotes::sequencer::CodepointSequencer;

fn entry(stem: &str, ext: Option<&str>) -> LocalEntry {
    LocalEntry {
        stem: Some(stem.to_string()),
        extension: ext.map(|e| e.to_string()),
    }
}

fn remote(id: &str, name: &str) -> RemoteEmote {
    RemoteEmote {
        id: id.to_string(),
        name: name.to_string(),
    }
}

#[test]
fn sequencer_hands_out_consecutive_values() {
    let mut counter = CodepointSequencer::new(0x100);
    assert_eq!(counter.peek(), 0x100);
    assert_eq!(counter.next(), 0x100);
    assert_eq!(counter.next(), 0x101);
    assert_eq!(counter.peek(), 0x102);
}

#[test]
fn hex_formatting_matches_lowercase_hexadecimal() {
    assert_eq!(hex_string(0), "0");
    assert_eq!(hex_string(9), "9");
    assert_eq!(hex_string(10), "a");
    assert_eq!(hex_string(255), "ff");
    assert_eq!(hex_string(0x100), "100");
    assert_eq!(hex_string(u32::MAX), "ffffffff");
}

#[test]
fn dec_formatting_matches_decimal() {
    assert_eq!(dec_string(0), "0");
    assert_eq!(dec_string(3), "3");
    assert_eq!(dec_string(1234), "1234");
}

#[test]
fn staged_file_name_uses_prefix_hex_and_extension() {
    assert_eq!(staged_file_name(0x100), "emoji_u100.png");
    assert_eq!(staged_file_name(0), "emoji_u0.png");
    assert_eq!(staged_file_name(0xabcdef), "emoji_uabcdef.png");
}

#[test]
fn asset_url_follows_the_template() {
    assert_eq!(
        asset_url("emotesv2_abc", 2),
        "https://static-cdn.jtvnw.net/emoticons/v2/emotesv2_abc/static/dark/2.0"
    );
    assert_eq!(
        asset_url("25", 1),
        "https://static-cdn.jtvnw.net/emoticons/v2/25/static/dark/1.0"
    );
}

#[test]
fn extension_check_is_case_insensitive() {
    assert!(extension_is_png("png"));
    assert!(extension_is_png("PNG"));
    assert!(extension_is_png("Png"));
    assert!(!extension_is_png("txt"));
    assert!(!extension_is_png("pngx"));
    assert!(!extension_is_png(""));
}

#[test]
fn scan_assigns_consecutive_identifiers_and_skips_unsupported() {
    let entries = vec![
        entry("a", Some("png")),
        entry("b", Some("png")),
        entry("c", Some("txt")),
    ];
    let mut counter = CodepointSequencer::new(0x100);
    let scanned = scan_custom_emotes(&entries, &mut counter);
    assert_eq!(scanned.len(), 2);
    assert_eq!(scanned[0].entry_index, 0);
    assert_eq!(scanned[0].record.name, "a");
    assert_eq!(scanned[0].record.identifier, 0x100);
    assert_eq!(scanned[0].record.origin, EmoteOrigin::Local);
    assert_eq!(scanned[0].record.remote_asset_id, None);
    assert_eq!(scanned[1].entry_index, 1);
    assert_eq!(scanned[1].record.name, "b");
    assert_eq!(scanned[1].record.identifier, 0x101);
    assert_eq!(counter.peek(), 0x102);
}

#[test]
fn scan_skips_entries_without_stem_or_extension() {
    let entries = vec![
        LocalEntry {
            stem: None,
            extension: Some("png".to_string()),
        },
        LocalEntry {
            stem: Some("noext".to_string()),
            extension: None,
        },
        entry("ok", Some("PNG")),
    ];
    let mut counter = CodepointSequencer::new(7);
    let scanned = scan_custom_emotes(&entries, &mut counter);
    assert_eq!(scanned.len(), 1);
    assert_eq!(scanned[0].entry_index, 2);
    assert_eq!(scanned[0].record.name, "ok");
    assert_eq!(scanned[0].record.identifier, 7);
}

#[test]
fn mapping_text_writes_one_line_per_record_in_order() {
    let entries = vec![
        entry("a", Some("png")),
        entry("b", Some("png")),
        entry("c", Some("txt")),
    ];
    let mut counter = CodepointSequencer::new(0x100);
    let custom = scanned_records(scan_custom_emotes(&entries, &mut counter));
    let catalogue = build_catalogue(custom, None);
    let text = mapping_text(&catalogue);
    assert_eq!(text, "a,100\nb,101\n");
}

#[test]
fn credential_absent_yields_local_only_catalogue() {
    let entries = vec![entry("solo", Some("png"))];
    let mut counter = CodepointSequencer::new(0);
    let custom = scanned_records(scan_custom_emotes(&entries, &mut counter));
    let catalogue = build_catalogue(custom, None);
    assert_eq!(catalogue.len(), 1);
    assert!(catalogue.iter().all(|r| r.origin == EmoteOrigin::Local));
    assert_eq!(mapping_text(&catalogue), "solo,0\n");
}

#[test]
fn global_emotes_take_identifiers_in_platform_order() {
    let global = Some(vec![remote("g1", "Kappa"), remote("g2", "PogChamp")]);
    let channels: Vec<ChannelFetch> = vec![];
    let mut counter = CodepointSequencer::new(0);
    let records = assign_remote_codepoints(&global, &channels, &mut counter).unwrap();
    assert_eq!(records.len(), 2);
    assert_eq!(records[0].name, "Kappa");
    assert_eq!(records[0].identifier, 0);
    assert_eq!(records[0].origin, EmoteOrigin::GlobalRemote);
    assert_eq!(records[0].remote_asset_id.as_deref(), Some("g1"));
    assert_eq!(records[1].name, "PogChamp");
    assert_eq!(records[1].identifier, 1);
    assert_eq!(counter.peek(), 2);
    let catalogue = build_catalogue(Vec::new(), Some(records));
    assert_eq!(mapping_text(&catalogue), "Kappa,0\nPogChamp,1\n");
}

#[test]
fn channel_emotes_follow_global_in_configuration_order() {
    let global = Some(vec![remote("g1", "Kappa")]);
    let channels = vec![
        ChannelFetch {
            channel: "first".to_string(),
            emotes: Some(vec![remote("c1", "FirstOne"), remote("c2", "FirstTwo")]),
        },
        ChannelFetch {
            channel: "second".to_string(),
            emotes: Some(vec![remote("c3", "SecondOne")]),
        },
    ];
    let mut counter = CodepointSequencer::new(0x10);
    let records = assign_remote_codepoints(&global, &channels, &mut counter).unwrap();
    assert_eq!(records.len(), 4);
    assert_eq!(records[0].name, "Kappa");
    assert_eq!(records[0].identifier, 0x10);
    assert_eq!(records[1].name, "FirstOne");
    assert_eq!(records[1].identifier, 0x11);
    assert_eq!(records[1].origin, EmoteOrigin::ChannelRemote);
    assert_eq!(records[2].name, "FirstTwo");
    assert_eq!(records[2].identifier, 0x12);
    assert_eq!(records[3].name, "SecondOne");
    assert_eq!(records[3].identifier, 0x13);
    assert_eq!(counter.peek(), 0x14);
}

#[test]
fn missing_channel_fails_with_channel_not_found() {
    let global = Some(vec![remote("g1", "Kappa")]);
    let channels = vec![
        ChannelFetch {
            channel: "exists".to_string(),
            emotes: Some(vec![remote("c1", "One")]),
        },
        ChannelFetch {
            channel: "ghost".to_string(),
            emotes: None,
        },
    ];
    let mut counter = CodepointSequencer::new(0);
    let result = assign_remote_codepoints(&global, &channels, &mut counter);
    match result {
        Err(RunError::ChannelNotFound { channel }) => assert_eq!(channel, "ghost"),
        other => panic!("expected ChannelNotFound, got {:?}", other),
    }
    // nothing was assigned: the run aborts before any artifact exists
    assert_eq!(counter.peek(), 0);
}

#[test]
fn remote_stage_with_nothing_requested_yields_nothing() {
    let global: Option<Vec<RemoteEmote>> = None;
    let channels: Vec<ChannelFetch> = vec![];
    let mut counter = CodepointSequencer::new(5);
    let records = assign_remote_codepoints(&global, &channels, &mut counter).unwrap();
    assert!(records.is_empty());
    assert_eq!(counter.peek(), 5);
}

#[test]
fn full_run_identifiers_are_unique_and_increasing() {
    let entries = vec![entry("a", Some("png")), entry("b", Some("png"))];
    let mut counter = CodepointSequencer::new(0x100);
    let custom = scanned_records(scan_custom_emotes(&entries, &mut counter));
    let global = Some(vec![remote("g1", "Kappa")]);
    let channels = vec![ChannelFetch {
        channel: "one".to_string(),
        emotes: Some(vec![remote("c1", "Chan")]),
    }];
    let remote_recs = assign_remote_codepoints(&global, &channels, &mut counter).unwrap();
    let catalogue = build_catalogue(custom, Some(remote_recs));
    assert_eq!(catalogue.len(), 4);
    let ids: Vec<u32> = catalogue.iter().map(|r| r.identifier).collect();
    assert_eq!(ids, vec![0x100, 0x101, 0x102, 0x103]);
    for w in ids.windows(2) {
        assert!(w[0] < w[1]);
    }
}

#[test]
fn staged_names_match_the_mapping_identifiers() {
    let records = vec![
        EmoteRecord {
            name: "a".to_string(),
            identifier: 0x100,
            origin: EmoteOrigin::Local,
            remote_asset_id: None,
        },
        EmoteRecord {
            name: "Kappa".to_string(),
            identifier: 0x101,
            origin: EmoteOrigin::GlobalRemote,
            remote_asset_id: Some("g1".to_string()),
        },
    ];
    let names = staged_names(&records);
    assert_eq!(names, vec!["emoji_u100.png", "emoji_u101.png"]);
    // round trip: the hexadecimal identifier in each mapping line names the
    // staged file of that record
    let text = mapping_text(&records);
    for (line, record) in text.lines().zip(records.iter()) {
        let (_, hex) = line.split_once(',').unwrap();
        assert_eq!(format!("emoji_u{}.png", hex), staged_file_name(record.identifier));
    }
}

#[test]
fn mapping_text_of_empty_catalogue_is_empty() {
    let catalogue = build_catalogue(Vec::new(), None);
    assert!(catalogue.is_empty());
    assert_eq!(mapping_text(&catalogue), "");
}
