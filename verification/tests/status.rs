use notion_tui::ui::{status_line, with_thousands_separators, SyncStatus};

#[test]
fn status_line_appends_pending_count() {
    assert_eq!(status_line(None, &SyncStatus::Idle { updated: 0 }, 0, 0, None, None, None), "✓ synced");
    assert_eq!(status_line(None, &SyncStatus::Idle { updated: 0 }, 3, 0, None, None, None), "✓ synced · 3 pending");
}

#[test]
fn status_line_appends_conflicted_count() {
    assert_eq!(
        status_line(None, &SyncStatus::Idle { updated: 0 }, 1, 2, None, None, None),
        "✓ synced · 1 pending · ⚠ 2 conflicted"
    );
}

#[test]
fn status_line_appends_notice() {
    assert_eq!(
        status_line(None, &SyncStatus::Idle { updated: 0 }, 0, 0, Some("no table open to show as a board"), None, None),
        "✓ synced · no table open to show as a board"
    );
}

#[test]
fn status_line_appends_hints() {
    assert_eq!(
        status_line(None, &SyncStatus::Idle { updated: 0 }, 0, 0, None, Some("J move card right"), None),
        "✓ synced · J move card right"
    );
}

#[test]
fn status_line_prepends_breadcrumb() {
    assert_eq!(
        status_line(Some("workspace → Roadmap"), &SyncStatus::Idle { updated: 0 }, 0, 0, None, None, None),
        "workspace → Roadmap · ✓ synced"
    );
}

#[test]
fn status_line_appends_pending_key() {
    assert_eq!(status_line(None, &SyncStatus::Idle { updated: 0 }, 0, 0, None, None, Some('d')), "✓ synced · d pending");
}

#[test]
fn syncing_status_shows_done_over_total_with_thousands_separators() {
    assert_eq!(
        status_line(None, &SyncStatus::Syncing { done: 240, total: 1893 }, 0, 0, None, None, None),
        "⟳ syncing 240/1,893 pages"
    );
    assert_eq!(status_line(None, &SyncStatus::Syncing { done: 0, total: 0 }, 0, 0, None, None, None), "⟳ syncing…");
}

#[test]
fn other_sync_states() {
    assert_eq!(status_line(None, &SyncStatus::Starting, 0, 0, None, None, None), "starting…");
    assert_eq!(status_line(None, &SyncStatus::Idle { updated: 4 }, 0, 0, None, None, None), "✓ synced (4 updated)");
    assert_eq!(status_line(None, &SyncStatus::Offline, 0, 0, None, None, None), "⚠ offline");
    assert_eq!(status_line(None, &SyncStatus::Failed("boom".into()), 0, 0, None, None, None), "✗ sync failed: boom");
}

#[test]
fn thousands_separators_group_from_the_right() {
    assert_eq!(with_thousands_separators(0), "0");
    assert_eq!(with_thousands_separators(999), "999");
    assert_eq!(with_thousands_separators(1000), "1,000");
    assert_eq!(with_thousands_separators(1893), "1,893");
    assert_eq!(with_thousands_separators(1234567), "1,234,567");
    assert_eq!(with_thousands_separators(u32::MAX), "4,294,967,295");
}
