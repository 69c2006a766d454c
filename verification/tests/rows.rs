use unibot::models::{DebugSession, GroupProfile, GroupStatus, MessageSource, PokeEntity};
use unibot::models::ConversationState;
use unibot::rows::{ConversationStateRow, DebugSessionRow, GroupRow, PokeRow, UserGroupRow};
use unibot::text::trim;

#[test]
fn group_rows_decode() {
    let row = GroupRow {
        group_id: "20001".into(),
        group_name: "Test Group".into(),
        owner_user_id: "10001".into(),
        member_count: 3,
        max_member_count: 500,
        group_status: "active".into(),
    };
    let g = GroupProfile::try_from(row).unwrap();
    assert_eq!(g.group_name, "Test Group");
    assert_eq!(g.group_status, GroupStatus::Active);
    assert_eq!(g.category_id, None);
    let bad = GroupRow {
        group_id: "1".into(),
        group_name: "x".into(),
        owner_user_id: "2".into(),
        member_count: 0,
        max_member_count: 0,
        group_status: "gone".into(),
    };
    assert!(GroupProfile::try_from(bad).is_err());
}

#[test]
fn other_rows_decode() {
    let s = DebugSession::try_from(DebugSessionRow {
        session_id: "s".into(),
        bot_id: "b".into(),
        session_name: "n".into(),
        description: None,
        started_at: 5,
        ended_at: Some(9),
    })
    .unwrap();
    assert_eq!((s.started_at, s.ended_at), (5, Some(9)));

    let c = ConversationState::from(ConversationStateRow {
        conversation_scene: "group".into(),
        peer_user_id: None,
        group_id: Some("20001".into()),
        is_pinned: 2,
        is_muted: 0,
    });
    assert!(c.is_pinned && !c.is_muted);

    let p = PokeEntity::try_from(PokeRow {
        id: "1".into(),
        source_type: "private".into(),
        source_id: "10002".into(),
        sender_user_id: "10001".into(),
        target_user_id: "10002".into(),
        created_at: 100,
    })
    .unwrap();
    assert_eq!(p.source, MessageSource::Private { peer_user_id: "10002".into() });
    let bad = PokeRow {
        id: "1".into(),
        source_type: "temp".into(),
        source_id: "x".into(),
        sender_user_id: "a".into(),
        target_user_id: "b".into(),
        created_at: 1,
    };
    assert!(PokeEntity::try_from(bad).is_err());
}

#[test]
fn trim_removes_unicode_whitespace() {
    assert_eq!(trim("\u{3000} a b \n"), "a b");
    assert_eq!(trim("   "), "");
}

#[test]
fn user_group_rows_keep_the_category() {
    let row = UserGroupRow {
        group_id: "20001".into(),
        group_name: "Test".into(),
        owner_user_id: "10001".into(),
        member_count: 1,
        max_member_count: 100,
        group_status: "dissolved".into(),
        category_id: Some("10001:group:default".into()),
    };
    let g = GroupProfile::try_from_user_group_row(row).unwrap();
    assert_eq!(g.group_status, GroupStatus::Dissolved);
    assert_eq!(g.category_id.as_deref(), Some("10001:group:default"));
}
