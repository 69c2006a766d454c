use unibot::codecs::{
    account_status_from_db, group_request_type_from_db, group_request_type_to_db,
    group_role_from_db, group_role_to_db, group_status_from_db, request_state_from_db,
    request_state_to_db,
};
use unibot::error::AppError;
use unibot::models::{
    AccountStatus, GroupRequestType, GroupRole, GroupStatus, MessageSource, RequestState,
};

#[test]
fn enum_codecs_round_trip() {
    for role in [GroupRole::Owner, GroupRole::Admin, GroupRole::Member] {
        assert_eq!(group_role_from_db(group_role_to_db(role)).unwrap(), role);
    }
    for state in [
        RequestState::Pending,
        RequestState::Accepted,
        RequestState::Rejected,
        RequestState::Ignored,
    ] {
        assert_eq!(request_state_from_db(request_state_to_db(state)).unwrap(), state);
    }
    for kind in [GroupRequestType::Join, GroupRequestType::Invite] {
        assert_eq!(group_request_type_from_db(group_request_type_to_db(kind)).unwrap(), kind);
    }
    assert_eq!(group_role_to_db(GroupRole::Admin), "admin");
    assert_eq!(request_state_to_db(RequestState::Ignored), "ignored");
    assert_eq!(group_request_type_to_db(GroupRequestType::Invite), "invite");
}

#[test]
fn enum_codecs_reject_unknown_spellings() {
    assert_eq!(account_status_from_db("disabled").unwrap(), AccountStatus::Disabled);
    assert_eq!(group_status_from_db("dissolved").unwrap(), GroupStatus::Dissolved);
    let err = group_role_from_db("king").unwrap_err();
    assert_eq!(err.to_string(), "encountered unexpected or invalid data: unknown group role: king");
    assert!(account_status_from_db("Active").is_err());
    assert!(group_status_from_db("").is_err());
    assert!(request_state_from_db("done").is_err());
    assert!(group_request_type_from_db("kick").is_err());
}

#[test]
fn message_source_parts() {
    let private = MessageSource::Private { peer_user_id: "10002".to_string() };
    assert_eq!(private.to_db_parts(), ("private", "10002"));
    let group = MessageSource::Group { group_id: "20001".to_string() };
    assert_eq!(group.to_db_parts(), ("group", "20001"));
    let (scene, id) = group.to_db_parts();
    assert_eq!(MessageSource::try_from((scene, id.to_string())).unwrap(), group);
    assert_eq!(
        MessageSource::try_from(("temp", "1".to_string())).unwrap_err(),
        "unknown source type: temp"
    );
}

#[test]
fn defaults_and_errors() {
    assert_eq!(AccountStatus::default(), AccountStatus::Active);
    assert_eq!(GroupStatus::default(), GroupStatus::Active);
    let e = AppError::validation("bad".to_string());
    assert!(matches!(e, AppError::Validation(ref m) if m == "bad"));
    assert_eq!(e.to_string(), "bad");
    assert_eq!(AppError::not_found("nf".to_string()).to_string(), "nf");
    assert!(matches!(AppError::conflict("c".to_string()), AppError::Conflict(_)));
    assert!(matches!(AppError::internal("i".to_string()), AppError::Internal(_)));
    let storage = AppError::from_sqlx(sqlx::Error::RowNotFound);
    assert_eq!(
        storage.to_string(),
        "database error: no rows returned by a query that expected to return at least one row"
    );
    let json_err = serde_json::from_str::<serde_json::Value>("{").unwrap_err();
    let internal = AppError::from_json(json_err);
    assert!(matches!(internal, AppError::Internal(_)));
    assert!(internal.to_string().starts_with("serialization error: "));
}
