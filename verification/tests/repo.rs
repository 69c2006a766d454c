use unibot::models::{GroupRequestEntity, GroupRequestType, RequestState};
use unibot::repo::{
    accepted_join_user, bool_setting_text, conversation_flag_plan, cover_needs_refresh,
    default_group_category_id, folder_deletable, folder_parent_error, i64_setting_text,
    is_private_scene, message_routing, normalize_parent_folder, packet_list_query,
    parent_in_group, setting_bool_value, setting_i64_value, setting_string_value,
    unset_essence, FolderParentError, NewMessageRecord, SqlBind,
};

fn record(owner: &str, sender: &str, scene: &str, source: &str) -> NewMessageRecord {
    NewMessageRecord {
        owner_user_id: owner.to_string(),
        sender_user_id: sender.to_string(),
        source_type: scene.to_string(),
        source_id: source.to_string(),
        content_json: "[]".to_string(),
        quoted_message_id: None,
        created_at: 100,
    }
}

#[test]
fn private_message_routing() {
    let sent = message_routing(&record("10001", "10001", "private", "10002"));
    assert!(sent.is_private);
    assert_eq!(sent.receiver_user_id.as_deref(), Some("10002"));
    assert_eq!(sent.group_id, None);
    assert_eq!(sent.conversation_id, "10001:private:10002");

    let received = message_routing(&record("10002", "10001", "temp", "10001"));
    assert_eq!(received.receiver_user_id.as_deref(), Some("10002"));
    assert_eq!(received.conversation_id, "10002:temp:10001");
}

#[test]
fn group_message_routing() {
    let r = message_routing(&record("10001", "10001", "group", "20001"));
    assert!(!r.is_private);
    assert_eq!(r.receiver_user_id, None);
    assert_eq!(r.group_id.as_deref(), Some("20001"));
    assert_eq!(r.conversation_id, "10001:group:20001");
    assert!(is_private_scene("temp"));
    assert!(!is_private_scene("Private"));
}

#[test]
fn flag_plan_matches_message_conversation() {
    let pin = conversation_flag_plan("10001", "private", Some("10002"), None, "is_pinned", true);
    assert_eq!(pin.conversation_id, "10001:private:10002");
    assert_eq!((pin.pinned, pin.muted), (1, 0));
    assert_eq!(pin.counterpart, "10002");
    let routed = message_routing(&record("10001", "10001", "private", "10002"));
    assert_eq!(pin.conversation_id, routed.conversation_id);

    let mute = conversation_flag_plan("10001", "group", None, Some("20001"), "is_muted", true);
    assert_eq!(mute.conversation_id, "10001:group:20001");
    assert_eq!((mute.pinned, mute.muted), (0, 1));

    let missing = conversation_flag_plan("10001", "private", None, None, "is_pinned", false);
    assert_eq!(missing.conversation_id, "10001:private:");
    assert_eq!((missing.pinned, missing.muted), (0, 0));
}

#[test]
fn packet_query_without_filters() {
    let q = packet_list_query(None, None, None, None, None, None, None, 50);
    assert_eq!(q.sql, "SELECT * FROM protocol_packets ORDER BY created_at DESC LIMIT ?");
    assert_eq!(q.binds, vec![SqlBind::Int(50)]);
}

#[test]
fn packet_query_with_all_filters() {
    let q = packet_list_query(
        Some("bot1"),
        Some("in"),
        Some("send_msg"),
        Some(10),
        Some(20),
        Some(true),
        Some(30),
        5000,
    );
    assert_eq!(
        q.sql,
        "SELECT * FROM protocol_packets WHERE bot_id = ? AND direction = ? AND action_name = ? \
AND created_at >= ? AND created_at <= ? AND is_error = ? AND created_at < ? \
ORDER BY created_at DESC LIMIT ?"
    );
    assert_eq!(
        q.binds,
        vec![
            SqlBind::Text("bot1".to_string()),
            SqlBind::Text("in".to_string()),
            SqlBind::Text("send_msg".to_string()),
            SqlBind::Int(10),
            SqlBind::Int(20),
            SqlBind::Int(1),
            SqlBind::Int(30),
            SqlBind::Int(1000),
        ]
    );
    let placeholders = q.sql.matches('?').count();
    assert_eq!(placeholders, q.binds.len());
}

#[test]
fn packet_query_first_filter_takes_where() {
    let q = packet_list_query(None, None, None, None, None, Some(false), None, -3);
    assert_eq!(
        q.sql,
        "SELECT * FROM protocol_packets WHERE is_error = ? ORDER BY created_at DESC LIMIT ?"
    );
    assert_eq!(q.binds, vec![SqlBind::Int(0), SqlBind::Int(-3)]);
}

#[test]
fn settings_read_back() {
    assert_eq!(setting_string_value(None, "info"), "info");
    assert_eq!(setting_string_value(Some("debug"), "info"), "debug");

    assert_eq!(setting_i64_value(None, 7), 7);
    assert_eq!(setting_i64_value(Some(&i64_setting_text(14)), 7), 14);
    assert_eq!(setting_i64_value(Some(&i64_setting_text(i64::MIN)), 7), i64::MIN);
    assert_eq!(setting_i64_value(Some(&i64_setting_text(i64::MAX)), 7), i64::MAX);
    assert_eq!(setting_i64_value(Some("+5"), 7), 5);
    assert_eq!(setting_i64_value(Some(" 5"), 7), 7);
    assert_eq!(setting_i64_value(Some("9223372036854775808"), 7), 7);
    assert_eq!(i64_setting_text(-42), "-42");
    assert_eq!(i64_setting_text(0), "0");

    assert!(!setting_bool_value(None, false));
    assert!(setting_bool_value(None, true));
    assert!(setting_bool_value(Some(bool_setting_text(true)), false));
    assert!(!setting_bool_value(Some(bool_setting_text(false)), true));
    assert!(setting_bool_value(Some("1"), false));
    assert!(setting_bool_value(Some("yes"), false));
    assert!(!setting_bool_value(Some("TRUE"), true));
}

fn request(kind: GroupRequestType, target: Option<&str>) -> GroupRequestEntity {
    GroupRequestEntity {
        request_id: "1".to_string(),
        group_id: "20001".to_string(),
        request_type: kind,
        initiator_user_id: "10002".to_string(),
        target_user_id: target.map(|t| t.to_string()),
        comment: None,
        state: RequestState::Accepted,
        created_at: 100,
        handled_at: Some(200),
        operator_user_id: Some("10001".to_string()),
    }
}

#[test]
fn accepted_requests_add_the_right_member() {
    let join = request(GroupRequestType::Join, None);
    assert_eq!(accepted_join_user(RequestState::Accepted, &join).as_deref(), Some("10002"));
    assert_eq!(accepted_join_user(RequestState::Rejected, &join), None);
    let invite = request(GroupRequestType::Invite, Some("10003"));
    assert_eq!(accepted_join_user(RequestState::Accepted, &invite).as_deref(), Some("10003"));
    let empty_invite = request(GroupRequestType::Invite, None);
    assert_eq!(accepted_join_user(RequestState::Accepted, &empty_invite), None);
    assert_eq!(accepted_join_user(RequestState::Ignored, &invite), None);
}

#[test]
fn folder_rules() {
    assert_eq!(normalize_parent_folder(""), None);
    assert_eq!(normalize_parent_folder("/"), None);
    assert_eq!(normalize_parent_folder("f1").as_deref(), Some("f1"));

    assert!(parent_in_group("g1", Some("g1")));
    assert!(!parent_in_group("g1", Some("g2")));
    assert!(!parent_in_group("g1", None));

    assert_eq!(folder_parent_error("f1", "g1", None, None, true), None);
    assert_eq!(
        folder_parent_error("f1", "g1", Some("f1"), Some("g1"), false),
        Some(FolderParentError::OwnParent)
    );
    assert_eq!(
        folder_parent_error("f1", "g1", Some("f2"), None, false),
        Some(FolderParentError::ParentNotInGroup)
    );
    assert_eq!(
        folder_parent_error("f1", "g1", Some("f2"), Some("g1"), true),
        Some(FolderParentError::ParentIsDescendant)
    );
    assert_eq!(folder_parent_error("f1", "g1", Some("f2"), Some("g1"), false), None);
    let err = FolderParentError::OwnParent.into_sqlx_error();
    assert_eq!(err.to_string(), "encountered unexpected or invalid data: folder cannot be its own parent");

    assert!(folder_deletable(0, 0));
    assert!(!folder_deletable(1, 0));
    assert!(!folder_deletable(0, 2));
}

#[test]
fn cover_refresh_and_essence() {
    assert!(cover_needs_refresh(Some("u1"), "u1"));
    assert!(!cover_needs_refresh(Some("u2"), "u1"));
    assert!(!cover_needs_refresh(None, "u1"));

    let e = unset_essence("20001", "7", "10002", "10001", 500);
    assert_eq!(e.essence_id, "");
    assert_eq!(e.group_id, "20001");
    assert_eq!(e.message_id, "7");
    assert_eq!(e.sender_user_id, "10002");
    assert_eq!(e.operator_user_id, "10001");
    assert!(!e.is_set);
    assert_eq!(e.created_at, 500);

    assert_eq!(default_group_category_id("10001"), "10001:group:default");
}
