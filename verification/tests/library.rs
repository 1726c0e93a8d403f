use mc_bedrock_tools::find_user_state_change;
use mc_bedrock_tools::parse_manifest;
use mc_bedrock_tools::StateChange;
use mc_bedrock_tools::TailCursor;
use mc_bedrock_tools::UserStateChange;

#[test]
fn test_one() {
    let a = find_user_state_change(
        "[2023-10-16 21:23:07:321 INFO] Player connected: Test1234, xuid: abc123, pfid: 12abc",
    );
    assert_eq!(a.len(), 1);
    assert_eq!(
        a[0],
        UserStateChange {
            username: "Test1234".to_string(),
            state: StateChange::Connected
        }
    );

    let a = find_user_state_change(
        "[2023-10-16 21:23:07:321 INFO] Player disconnected: Test1234, xuid: abc123, pfid: 12abc",
    );
    assert_eq!(a.len(), 1);
    assert_eq!(
        a[0],
        UserStateChange {
            username: "Test1234".to_string(),
            state: StateChange::Disconnected
        }
    );
}

#[test]
fn test_utf8_name() {
    let a = find_user_state_change(
        "[2023-10-16 21:23:07:321 INFO] Player connected: 钟岚珠, xuid: abc123, pfid: 12abc",
    );
    assert_eq!(a.len(), 1);
    assert_eq!(
        a[0],
        UserStateChange {
            username: "钟岚珠".to_string(),
            state: StateChange::Connected
        }
    );
}

#[test]
fn test_multi() {
    let a = find_user_state_change(
        "[2023-10-16 21:23:07:321 INFO] Player connected: Test1234, xuid: 2535454618798386
[2023-10-16 22:02:35:102 INFO] Player disconnected: Test1234, xuid: 1234abcd, pfid: abcd1234",
    );
    assert_eq!(a.len(), 2);
    assert_eq!(
        a[0],
        UserStateChange {
            username: "Test1234".to_string(),
            state: StateChange::Connected
        }
    );
}

#[test]
fn events_ignore_non_matching_lines() {
    // A header not at a line start, a missing comma, and an empty name all
    // yield nothing.
    let a = find_user_state_change(
        "xx[2023-10-16 21:23:07:321 INFO] Player connected: Test1234, xuid: a",
    );
    assert_eq!(a.len(), 0);
    let a = find_user_state_change("[2023-10-16 21:23:07:321 INFO] Player connected: Test1234");
    assert_eq!(a.len(), 0);
    let a = find_user_state_change("[2023-10-16 21:23:07:321 INFO] Player connected: , xuid: a");
    assert_eq!(a.len(), 0);
    let a = find_user_state_change("[2023-10-16 21:23:07:321 INFO] Server started.");
    assert_eq!(a.len(), 0);
}

#[test]
fn events_after_newline() {
    let a = find_user_state_change(
        "noise line\n[2023-10-16 21:23:07:321 INFO] Player connected: Ab, xuid: 1\ntrailing",
    );
    assert_eq!(a.len(), 1);
    assert_eq!(a[0].username, "Ab".to_string());
    assert_eq!(a[0].state, StateChange::Connected);
}

#[test]
fn manifest_example() {
    let text = "[log] Data saved. Files are now ready to be copied.\nworld/db/0: 4096, world/db/1: 0, level.dat: 128\n";
    let marker = "Data saved. Files are now ready to be copied.";
    let entries = parse_manifest(text, marker);
    assert_eq!(entries.len(), 2);
    assert_eq!(entries[0].path, "world/db/0".to_string());
    assert_eq!(entries[0].size, 4096);
    assert_eq!(entries[1].path, "level.dat".to_string());
    assert_eq!(entries[1].size, 128);
}

#[test]
fn manifest_without_marker_is_empty() {
    let entries = parse_manifest("some ordinary log text\nanother line\n", "Saved the game");
    assert_eq!(entries.len(), 0);
}

#[test]
fn manifest_without_following_line_is_empty() {
    let entries = parse_manifest("prefix Data saved. suffix", "Data saved.");
    assert_eq!(entries.len(), 0);
}

#[test]
fn manifest_drops_unreadable_sizes() {
    let text = "MARK\na:xx, nocolon, b: 12, c:99999999999999999999999999, d:3\n";
    let entries = parse_manifest(text, "MARK");
    assert_eq!(entries.len(), 2);
    assert_eq!(entries[0].path, "b".to_string());
    assert_eq!(entries[0].size, 12);
    assert_eq!(entries[1].path, "d".to_string());
    assert_eq!(entries[1].size, 3);
}

#[test]
fn manifest_uses_first_marker_line() {
    let text = "MARK one\nfirst:1\nMARK two\nsecond:2\n";
    let entries = parse_manifest(text, "MARK");
    assert_eq!(entries.len(), 1);
    assert_eq!(entries[0].path, "first".to_string());
    assert_eq!(entries[0].size, 1);
}

#[test]
fn tail_cursor_drains_appended_text_once() {
    let mut cursor = TailCursor::new();
    cursor.seek_to_end("abc");
    let mut buf = String::new();
    cursor.drain_new("abcdef", &mut buf);
    assert_eq!(buf, "def".to_string());
    buf.clear();
    cursor.drain_new("abcdef", &mut buf);
    assert_eq!(buf, "".to_string());
}

#[test]
fn tail_cursor_starts_at_the_beginning() {
    let mut cursor = TailCursor::new();
    let mut buf = String::new();
    cursor.drain_new("ab", &mut buf);
    assert_eq!(buf, "ab".to_string());
}
