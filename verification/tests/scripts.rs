use ytune::scripts::{
    auth_token_script, discord_state_script, player_control_script, room_status_script,
    update_notice_script,
};

#[test]
fn control_buttons() {
    assert_eq!(player_control_script("play_pause").as_deref(), Some("window.__ytune__?.playPause()"));
    assert_eq!(player_control_script("next").as_deref(), Some("window.__ytune__?.next()"));
    assert_eq!(player_control_script("previous").as_deref(), Some("window.__ytune__?.previous()"));
    assert_eq!(player_control_script("like").as_deref(), Some("window.__ytune__?.like()"));
    assert_eq!(player_control_script("dislike").as_deref(), Some("window.__ytune__?.dislike()"));
}

#[test]
fn control_unknown_action() {
    assert_eq!(player_control_script("shuffle"), None);
    assert_eq!(player_control_script(""), None);
    assert_eq!(player_control_script("next "), None);
}

#[test]
fn control_queue_jump() {
    assert_eq!(
        player_control_script("queue_jump_3").as_deref(),
        Some("window.__ytune__?.queueJump(3)")
    );
    assert_eq!(
        player_control_script("queue_jump_+007").as_deref(),
        Some("window.__ytune__?.queueJump(7)")
    );
}

#[test]
fn control_queue_jump_invalid_index() {
    assert_eq!(player_control_script("queue_jump_"), None);
    assert_eq!(player_control_script("queue_jump_x"), None);
    assert_eq!(player_control_script("queue_jump_-1"), None);
    assert_eq!(player_control_script("queue_jump_ 1"), None);
    assert_eq!(player_control_script("queue_jump_99999999999999999999999"), None);
}

#[test]
fn control_queue_jump_echoes_index() {
    for n in [0usize, 9, 10, 12345, usize::MAX] {
        assert_eq!(
            player_control_script(&format!("queue_jump_{}", n)),
            Some(format!("window.__ytune__?.queueJump({})", n))
        );
    }
}

#[test]
fn token_script_escapes() {
    assert_eq!(
        auth_token_script("a\"b\\c"),
        "window.__ytune__?.setAuthToken?.(\"a\\\"b\\\\c\")"
    );
    assert_eq!(auth_token_script(""), "window.__ytune__?.setAuthToken?.(\"\")");
}

#[test]
fn token_script_matches_replace_chain() {
    let token = "x\\\"\\\\\"y";
    let expected = format!(
        "window.__ytune__?.setAuthToken?.(\"{}\")",
        token.replace('\\', "\\\\").replace('"', "\\\"")
    );
    assert_eq!(auth_token_script(token), expected);
}

#[test]
fn update_notice_escapes_single_quote() {
    assert_eq!(
        update_notice_script("1.2'3"),
        "window.__ytune__?.showUpdateNotif?.('1.2\\'3')"
    );
    assert_eq!(update_notice_script(""), "window.__ytune__?.showUpdateNotif?.('')");
}

#[test]
fn room_status_passes_payload() {
    assert_eq!(
        room_status_script("{\"online\":2}"),
        "window.__ytune__?.setRoomStatus?.({\"online\":2})"
    );
}

#[test]
fn discord_state_calls() {
    assert_eq!(discord_state_script(true), "window.__ytune__?.setDiscordState?.(true)");
    assert_eq!(discord_state_script(false), "window.__ytune__?.setDiscordState?.(false)");
}
