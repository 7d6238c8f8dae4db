use ytune::discord::{
    has_stat_keyword_text, ActivityKind, StatusDisplay,
    activity_plan, clean_artist, handle_player_snapshot, link_step, status_line, DiscordTrackState,
    LinkAction, LinkEvent, LinkPhase, PlayerSnapshot,
};

fn snap(title: &str, playing: bool, liked: bool, position: i64, thumbnail: &str) -> PlayerSnapshot {
    PlayerSnapshot {
        title: title.to_string(),
        artist: "Artist • 1 mil visualizações".to_string(),
        playing,
        liked,
        position,
        thumbnail: thumbnail.to_string(),
    }
}

#[test]
fn artist_drops_counts() {
    assert_eq!(
        clean_artist("Artist • 803 mil visualizações • 12 mil marcações \"Gostei\""),
        "Artist"
    );
}

#[test]
fn artist_joins_lines_and_bullets() {
    assert_eq!(clean_artist("Song\nArtist • Album • 2020"), "Song • Artist • Album • 2020");
    assert_eq!(clean_artist("A\r\nB\n"), "A • B");
}

#[test]
fn artist_strips_quotes_and_empty_pieces() {
    assert_eq!(clean_artist("  \"Artist\"  •  • \n\n"), "Artist");
    assert_eq!(clean_artist(""), "");
    assert_eq!(clean_artist("1.2M views • 30K likes"), "");
}

#[test]
fn artist_lowercases_before_matching() {
    assert_eq!(clean_artist("Band • 1.2M VIEWS"), "Band");
    assert_eq!(clean_artist("Band • 3 li\u{212a}es"), "Band");
    assert_eq!(clean_artist("Views Band"), "");
}

#[test]
fn status_lines() {
    assert_eq!(status_line(false, true), "❤️ Liked · Paused");
    assert_eq!(status_line(false, false), "⏸ Paused");
    assert_eq!(status_line(true, true), "❤️ Liked");
    assert_eq!(status_line(true, false), "");
}

#[test]
fn new_title_is_sent_with_song_start() {
    let mut t = DiscordTrackState::new();
    let plan = handle_player_snapshot(&mut t, &snap("Song", true, false, 30, "https://i/x.jpg"), 1000)
        .unwrap();
    assert_eq!(t.title, "Song");
    assert_eq!(t.song_start, 970);
    assert_eq!(t.last_update, 1000);
    assert_eq!(plan.details, "Song");
    assert_eq!(plan.state, "Artist");
    assert_eq!(plan.large_image, "https://i/x.jpg");
    assert_eq!(plan.large_text, None);
    assert_eq!(plan.start, Some(970));
}

#[test]
fn unchanged_snapshot_is_quiet_within_interval() {
    let mut t = DiscordTrackState::new();
    let s = snap("Song", true, false, 30, "https://i/x.jpg");
    assert!(t.observe(&s, 1000));
    assert!(!t.observe(&s, 1005));
    assert!(!t.observe(&s, 1014));
    assert_eq!(t.last_update, 1000);
    assert!(t.observe(&s, 1015));
    assert_eq!(t.last_update, 1015);
    assert_eq!(t.song_start, 970);
}

#[test]
fn state_changes_are_sent() {
    let mut t = DiscordTrackState::new();
    assert!(t.observe(&snap("Song", true, false, 30, "https://a"), 1000));
    assert!(t.observe(&snap("Song", false, false, 31, "https://a"), 1001));
    assert!(t.observe(&snap("Song", false, true, 31, "https://a"), 1002));
    assert!(t.observe(&snap("Song", false, true, 31, "https://b"), 1003));
    assert_eq!(t.song_start, 970);
    assert!(!t.observe(&snap("Song", false, true, 31, ""), 1004));
    assert_eq!(t.thumbnail, "https://b");
}

#[test]
fn song_change_resets_start() {
    let mut t = DiscordTrackState::new();
    assert!(t.observe(&snap("One", true, false, 10, ""), 100));
    assert!(t.observe(&snap("Two", true, false, 2, ""), 101));
    assert_eq!(t.song_start, 99);
    assert_eq!(t.title, "Two");
}

#[test]
fn empty_title_at_start_is_quiet() {
    let mut t = DiscordTrackState::new();
    assert!(!t.observe(&snap("", false, false, 0, ""), 10));
    assert!(handle_player_snapshot(&mut t, &snap("", false, false, 0, ""), 10).is_none());
}

#[test]
fn plan_without_https_thumbnail_uses_asset() {
    let p = activity_plan(&snap("Song", false, true, 0, "http://x"), 5);
    assert_eq!(p.large_image, "ytmusic");
    assert_eq!(p.large_text.as_deref(), Some("❤️ Liked · Paused"));
    assert_eq!(p.start, None);
}

#[test]
fn link_steps() {
    assert_eq!(
        link_step(LinkEvent::Connected { stored: true }),
        (LinkPhase::Watching, LinkAction::WaitThenCheck(5))
    );
    assert_eq!(
        link_step(LinkEvent::Connected { stored: false }),
        (LinkPhase::Connecting, LinkAction::WaitThenConnect(15))
    );
    assert_eq!(
        link_step(LinkEvent::ConnectFailed),
        (LinkPhase::Connecting, LinkAction::WaitThenConnect(15))
    );
    assert_eq!(
        link_step(LinkEvent::Checked { present: true }),
        (LinkPhase::Watching, LinkAction::WaitThenCheck(5))
    );
    assert_eq!(
        link_step(LinkEvent::Checked { present: false }),
        (LinkPhase::Connecting, LinkAction::WaitThenConnect(15))
    );
}

#[test]
fn stat_keywords_in_lowercase_text() {
    assert!(has_stat_keyword_text("803 mil visualizações"));
    assert!(has_stat_keyword_text("12k likes"));
    assert!(has_stat_keyword_text("marcações gostei"));
    assert!(!has_stat_keyword_text("1.2m VIEWS"));
    assert!(!has_stat_keyword_text("band name"));
}

#[test]
fn plan_is_a_listening_activity() {
    let p = activity_plan(&snap("Song", true, false, 0, ""), 7);
    assert_eq!(p.kind, ActivityKind::Listening);
    assert_eq!(p.status_display, StatusDisplay::Details);
}

#[test]
fn artist_cleaning_twice_changes_nothing() {
    for raw in ["Song\nArtist • Album • 2020", "  A  •  • B\r\n", "x • 1 views • y", ""] {
        let once = clean_artist(raw);
        assert_eq!(clean_artist(&once), once);
    }
}

#[test]
fn artist_line_has_no_line_feed() {
    let out = clean_artist("a\nb\n\nc • d\n");
    assert!(!out.contains('\n'));
    for part in out.split(" • ") {
        assert!(!part.is_empty());
        assert_eq!(part, part.trim());
    }
}
