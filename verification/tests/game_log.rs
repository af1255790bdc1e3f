use poe_wayfinder_app::game_log::{league_from_whisper, parse_log_line, GameLogWatcher, LogError, LogEvent};

const AREA: &str =
    "2026/08/04 12:00:00 123456 cffb0716 [INFO Client 1234] : You have entered Sarn Encampment.";
const LEVEL: &str =
    "2026/08/04 12:00:00 123456 cffb0716 [INFO Client 1234] : Kaom (Marauder) is now level 42";
const WHISPER: &str = "2026/08/04 12:00:00 123456 cffb0716 [INFO Client 1234] @From Kaom: Hi, I would like to buy your Sapphire Ring listed for 5 divine in Standard";

#[test]
fn an_area_line_is_read() {
    assert_eq!(
        parse_log_line(AREA),
        Some(LogEvent::EnteredArea {
            name: "Sarn Encampment".into()
        })
    );
}

#[test]
fn the_trailing_full_stop_is_not_part_of_the_area_name() {
    let event = parse_log_line(AREA).unwrap();

    match event {
        LogEvent::EnteredArea { name } => assert!(!name.ends_with('.')),
        other => panic!("wrong event: {other:?}"),
    }
}

#[test]
fn a_level_up_line_names_the_character_and_class() {
    assert_eq!(
        parse_log_line(LEVEL),
        Some(LogEvent::LevelUp {
            character: "Kaom".into(),
            class: "Marauder".into(),
            level: 42
        })
    );
}

#[test]
fn a_character_name_with_a_space_survives() {
    let line = "2026/08/04 12:00:00 1 a [INFO Client 1] : Big Kaom (Marauder) is now level 5";

    assert_eq!(
        parse_log_line(line),
        Some(LogEvent::LevelUp {
            character: "Big Kaom".into(),
            class: "Marauder".into(),
            level: 5
        })
    );
}

#[test]
fn a_whisper_is_read() {
    let event = parse_log_line(WHISPER).unwrap();

    match event {
        LogEvent::Whisper { from, body } => {
            assert_eq!(from, "Kaom");
            assert!(body.contains("Sapphire Ring"));
        }
        other => panic!("wrong event: {other:?}"),
    }
}

#[test]
fn a_guild_tag_is_not_part_of_the_whisperer_name() {
    let line = "2026/08/04 12:00:00 1 a [INFO Client 1] @From <TAG> Kaom: hello";

    match parse_log_line(line).unwrap() {
        LogEvent::Whisper { from, .. } => assert_eq!(from, "Kaom"),
        other => panic!("wrong event: {other:?}"),
    }
}

#[test]
fn an_outgoing_whisper_is_not_read_as_incoming() {
    let line = "2026/08/04 12:00:00 1 a [INFO Client 1] @To Kaom: hello";

    assert_eq!(parse_log_line(line), None);
}

#[test]
fn ordinary_engine_noise_yields_nothing() {
    for line in [
        "2026/08/04 12:00:00 1 a [DEBUG Client 1] Got Instance Details",
        "2026/08/04 12:00:00 1 a [INFO Client 1] Connecting to instance server",
        "",
        "not a log line at all",
    ] {
        assert_eq!(parse_log_line(line), None, "{line}");
    }
}

#[test]
fn a_malformed_level_up_is_not_read() {
    for line in [
        "2026/08/04 12:00:00 1 a [INFO Client 1] : is now level 42",
        "2026/08/04 12:00:00 1 a [INFO Client 1] : Kaom (Marauder) is now level abc",
        "2026/08/04 12:00:00 1 a [INFO Client 1] : Kaom is now level 42",
    ] {
        assert_eq!(parse_log_line(line), None, "{line}");
    }
}

#[test]
fn an_empty_area_name_is_not_read() {
    let line = "2026/08/04 12:00:00 1 a [INFO Client 1] : You have entered ";

    assert_eq!(parse_log_line(line), None);
}

#[test]
fn the_league_is_pulled_out_of_a_trade_whisper() {
    let body = "Hi, I would like to buy your Sapphire Ring listed for 5 divine in Standard";

    assert_eq!(league_from_whisper(body), Some("Standard".into()));
}

#[test]
fn a_league_with_a_space_survives() {
    let body = "Hi, I would like to buy your item listed for 1 chaos in Hardcore Ruthless";

    assert_eq!(league_from_whisper(body), Some("Hardcore Ruthless".into()));
}

#[test]
fn a_stash_tab_note_after_the_league_is_dropped() {
    let body = "Hi, I want your item listed for 5 divine in Standard (stash tab \"A\"; position: left 1, top 2)";

    assert_eq!(league_from_whisper(body), Some("Standard".into()));
}

#[test]
fn a_whisper_that_names_no_league_yields_nothing() {
    assert_eq!(league_from_whisper("hello there"), None);
    assert_eq!(league_from_whisper(""), None);
}

#[test]
fn an_absurdly_long_league_name_is_rejected() {
    let body = format!("buying your item in {}", "x".repeat(100));

    assert_eq!(league_from_whisper(&body), None);
}

#[test]
fn a_whole_log_is_parsed_line_by_line() {
    let text = format!("{AREA}\nnot a log line\n{LEVEL}\n");

    let found = text.lines().filter_map(parse_log_line).count();

    assert_eq!(found, 2, "the noise between is skipped");
}

#[test]
fn an_empty_line_parses_to_nothing() {
    assert!(parse_log_line("").is_none());
}

#[test]
fn a_league_name_at_the_byte_limit_is_kept_and_one_past_it_is_not() {
    let forty = "y".repeat(40);
    let body = format!("buying your item in {forty}");
    assert_eq!(league_from_whisper(&body), Some(forty));

    let wide = "é".repeat(21);
    let body = format!("buying your item in {wide}");
    assert_eq!(league_from_whisper(&body), None, "21 two-byte letters are 42 bytes");
}

#[test]
fn trailing_punctuation_after_a_league_is_dropped() {
    assert_eq!(
        league_from_whisper("your item in Standard.,"),
        Some("Standard".into())
    );
}

#[test]
fn a_level_with_a_plus_sign_still_reads_and_an_overflowing_one_does_not() {
    let plus = "x [INFO] : Kaom (Marauder) is now level +7";
    assert_eq!(
        parse_log_line(plus),
        Some(LogEvent::LevelUp {
            character: "Kaom".into(),
            class: "Marauder".into(),
            level: 7
        })
    );

    let huge = "x [INFO] : Kaom (Marauder) is now level 4294967296";
    assert_eq!(parse_log_line(huge), None);
}

fn lines(text: &[&str]) -> Vec<String> {
    text.iter().map(|s| s.to_string()).collect()
}

#[test]
fn a_new_watcher_skips_what_is_already_there() {
    let mut w = GameLogWatcher::new("Client.txt", 100);

    assert_eq!(w.read_from(100), None);
    assert_eq!(w.position(), 100);
}

#[test]
fn new_lines_move_the_watcher_past_them_and_report_their_events() {
    let mut w = GameLogWatcher::from_start("Client.txt");
    let text = lines(&["noise", AREA, LEVEL, WHISPER]);
    let length: u64 = text.iter().map(|l| l.len() as u64 + 1).sum();

    assert_eq!(w.read_from(length), Some(0));

    let events = w.consume(length, &text);

    assert_eq!(events.len(), 3);
    assert!(matches!(events[0], LogEvent::EnteredArea { .. }));
    assert!(matches!(events[1], LogEvent::LevelUp { .. }));
    assert!(matches!(events[2], LogEvent::Whisper { .. }));
    assert_eq!(w.position(), length);
    assert_eq!(w.read_from(length), None, "a line is reported only once");
}

#[test]
fn a_truncated_log_is_read_from_the_start_again() {
    let mut w = GameLogWatcher::new("Client.txt", 500);

    assert_eq!(w.read_from(20), Some(0));
    assert_eq!(w.position(), 0);
}

#[test]
fn the_position_never_passes_the_end_of_the_file() {
    let mut w = GameLogWatcher::from_start("Client.txt");
    let text = lines(&[AREA]);

    w.consume(10, &text);

    assert_eq!(w.position(), 10);
}

#[test]
fn watching_a_new_file_skips_its_backlog_and_the_same_file_changes_nothing() {
    let mut w = GameLogWatcher::from_start("first.txt");
    w.consume(30, &lines(&["abc"]));
    let at = w.position();

    w.watch("first.txt", 999);
    assert_eq!(w.position(), at);

    w.watch("second.txt", 77);
    assert_eq!(w.position(), 77);
    assert_eq!(w.path(), "second.txt");
}

#[test]
fn a_log_error_names_the_action_and_the_path() {

    let open = LogError::Open {
        path: "C:/Games/Path of Exile/logs/Client.txt".to_string(),
        source: std::io::Error::other("denied"),
    };
    let read = LogError::Read {
        path: "Client.txt".to_string(),
        source: std::io::Error::other("gone"),
    };

    assert_eq!(open.message(), "opening C:/Games/Path of Exile/logs/Client.txt");
    assert_eq!(read.message(), "reading Client.txt");
}

#[test]
fn a_line_is_reported_only_once() {
    let mut w = GameLogWatcher::new("once.txt", "old\n".len() as u64);
    let added = lines(&[AREA]);
    let length = "old\n".len() as u64 + AREA.len() as u64 + 1;

    assert_eq!(w.read_from(length), Some(4));
    assert_eq!(w.consume(length, &added).len(), 1);
    assert_eq!(w.read_from(length), None);
}
