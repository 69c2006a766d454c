use unibot::error::AppError;
use unibot::models::{AccountStatus, UserProfile};
use unibot::registry::{
    chat_window_label, chat_window_title, chat_window_url, check_chat_user_id, u64_to_decimal,
    ChatWindowAction, CoreContainer,
};

fn profile(id: &str, nick: &str) -> UserProfile {
    UserProfile {
        user_id: id.to_string(),
        nickname: nick.to_string(),
        avatar: String::new(),
        signature: String::new(),
        account_status: AccountStatus::Active,
    }
}

#[test]
fn register_lookup_and_unregister() {
    let mut core = CoreContainer::new();
    let ctx = core.register_user(10001, profile("10001", "Alice")).unwrap();
    assert_eq!(ctx.profile.nickname, "Alice");
    assert_eq!(ctx.chat_window_label(), None);
    core.register_user(10002, profile("10002", "Bob")).unwrap();

    match core.register_user(10001, profile("10001", "Again")) {
        Err(AppError::Conflict(m)) => assert_eq!(m, "user 10001 already exists"),
        _ => panic!("expected a conflict"),
    }
    assert_eq!(core.user_context(10001).unwrap().profile.nickname, "Alice");
    let ids: Vec<String> = core.list_user_contexts().iter().map(|c| c.profile.user_id.clone()).collect();
    assert_eq!(ids, vec!["10001".to_string(), "10002".to_string()]);

    core.set_chat_window_label(10002, Some("chat-10002".to_string()));
    assert_eq!(core.user_context(10002).unwrap().chat_window_label().as_deref(), Some("chat-10002"));

    let removed = core.unregister_user(10001).unwrap();
    assert_eq!(removed.profile.nickname, "Alice");
    assert!(core.user_context(10001).is_none());
    assert!(core.unregister_user(10001).is_none());
    match core.require_user_context(10001) {
        Err(AppError::NotFound(m)) => assert_eq!(m, "user 10001 is not registered"),
        _ => panic!("expected not found"),
    }
    assert_eq!(core.list_user_contexts().len(), 1);
}

#[test]
fn user_context_labels_and_events() {
    let mut core = CoreContainer::new();
    let mut ctx = core.register_user(7, profile("7", "Neo")).unwrap();
    ctx.set_chat_window_label(Some("chat-7".into()));
    assert_eq!(ctx.chat_window_label().as_deref(), Some("chat-7"));
    ctx.clear_chat_window_label();
    assert_eq!(ctx.chat_window_label(), None);
    let _rx = ctx.subscribe_events();
    let copy = ctx.duplicate();
    assert_eq!(copy.profile, ctx.profile);
}

#[test]
fn chat_window_naming() {
    assert_eq!(u64_to_decimal(0), "0");
    assert_eq!(u64_to_decimal(u64::MAX), "18446744073709551615");
    assert_eq!(chat_window_label(10001), "chat-10001");
    assert_eq!(chat_window_url(10001), "index.html#/chat/10001");
    assert_eq!(chat_window_title(10001, Some("  Ally ".into()), "Alice"), "聊天 · Ally");
    assert_eq!(chat_window_title(10001, Some("  ".into()), " Alice"), "聊天 · Alice");
    assert_eq!(chat_window_title(10001, None, "   "), "聊天 · 10001");
    assert!(check_chat_user_id(1).is_ok());
    match check_chat_user_id(0) {
        Err(AppError::Validation(m)) => assert_eq!(m, "invalid user id"),
        _ => panic!("expected a validation error"),
    }
}

#[test]
fn opening_chat_windows() {
    let mut core = CoreContainer::new();
    core.register_user(10001, profile("10001", "Alice")).unwrap();

    match core.open_user_chat_window(0, None, false, false) {
        Err(AppError::Validation(m)) => assert_eq!(m, "invalid user id"),
        other => panic!("unexpected {other:?}"),
    }
    match core.open_user_chat_window(10002, None, false, false) {
        Err(AppError::NotFound(m)) => assert_eq!(m, "user 10002 is not registered"),
        other => panic!("unexpected {other:?}"),
    }

    let created = core.open_user_chat_window(10001, None, false, false).unwrap();
    assert_eq!(
        created,
        ChatWindowAction::Create {
            label: "chat-10001".to_string(),
            title: "聊天 · Alice".to_string(),
            url: "index.html#/chat/10001".to_string(),
        }
    );
    // Nothing is recorded until the window has been built.
    assert_eq!(core.user_context(10001).unwrap().chat_window_label(), None);
    core.set_chat_window_label(10001, Some("chat-10001".to_string()));

    assert_eq!(
        core.open_user_chat_window(10001, None, true, true).unwrap(),
        ChatWindowAction::FocusRecorded("chat-10001".to_string())
    );
    assert_eq!(
        core.user_context(10001).unwrap().chat_window_label().as_deref(),
        Some("chat-10001")
    );

    // The recorded window is gone: the stale record is cleared.
    assert_eq!(
        core.open_user_chat_window(10001, Some("Ally".into()), false, true).unwrap(),
        ChatWindowAction::FocusExisting("chat-10001".to_string())
    );
    assert_eq!(core.user_context(10001).unwrap().chat_window_label(), None);
}

#[test]
fn closing_takes_recorded_labels() {
    let mut core = CoreContainer::new();
    core.register_user(3, profile("3", "C")).unwrap();
    core.register_user(1, profile("1", "A")).unwrap();
    core.register_user(2, profile("2", "B")).unwrap();
    core.set_chat_window_label(1, Some("chat-1".into()));
    core.set_chat_window_label(3, Some("chat-3".into()));
    let labels = core.take_chat_window_labels();
    assert_eq!(labels, vec!["chat-3".to_string(), "chat-1".to_string()]);
    for id in [1, 2, 3] {
        assert_eq!(core.user_context(id).unwrap().chat_window_label(), None);
    }
    assert!(core.take_chat_window_labels().is_empty());
    assert_eq!(core.user_context(2).unwrap().profile.nickname, "B");
}

#[test]
fn register_then_unregister_restores_the_online_users() {
    let mut core = CoreContainer::new();
    core.register_user(7, profile("7", "Ann")).unwrap();
    core.register_user(9, profile("9", "Ben")).unwrap();
    let names = |c: &CoreContainer| -> Vec<String> {
        c.list_user_contexts().iter().map(|u| u.profile.nickname.clone()).collect()
    };
    let before = names(&core);
    core.register_user(8, profile("8", "Cid")).unwrap();
    assert_eq!(names(&core), vec!["Ann", "Ben", "Cid"]);
    core.unregister_user(8).unwrap();
    assert_eq!(names(&core), before);
    assert!(core.user_context(8).is_none());
}
