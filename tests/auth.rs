use taskcast::auth::{
    authorize, check_scope, parse_scope, required_scope, task_access, AuthContext, Endpoint, TaskIdAccess,
};
use taskcast::types::PermissionScope;

#[test]
fn open_context_allows_everything() {
    let auth = AuthContext::open();
    assert!(check_scope(&auth, PermissionScope::TaskCreate, None));
    assert!(check_scope(&auth, PermissionScope::EventPublish, Some("t1")));
}

#[test]
fn subscribe_scope_cannot_create_but_can_read() {
    let auth = AuthContext {
        sub: None,
        task_ids: TaskIdAccess::All,
        scope: vec![PermissionScope::EventSubscribe],
    };
    assert!(!check_scope(&auth, PermissionScope::TaskCreate, None));
    assert!(check_scope(&auth, PermissionScope::EventSubscribe, Some("t1")));
}

#[test]
fn task_list_limits_reach() {
    let auth = AuthContext {
        sub: Some("user".to_string()),
        task_ids: TaskIdAccess::List(vec!["t1".to_string()]),
        scope: vec![PermissionScope::All],
    };
    assert!(check_scope(&auth, PermissionScope::EventHistory, Some("t1")));
    assert!(!check_scope(&auth, PermissionScope::EventHistory, Some("t2")));
    assert!(check_scope(&auth, PermissionScope::TaskCreate, None));
}

#[test]
fn endpoints_need_their_scopes() {
    let auth = AuthContext {
        sub: None,
        task_ids: TaskIdAccess::All,
        scope: vec![PermissionScope::EventSubscribe],
    };
    assert!(!authorize(&auth, Endpoint::CreateTask, None));
    assert!(authorize(&auth, Endpoint::GetTask, Some("t1")));
    assert!(authorize(&auth, Endpoint::EventStream, Some("t1")));
    assert!(!authorize(&auth, Endpoint::EventHistory, Some("t1")));
    assert_eq!(required_scope(Endpoint::TransitionTask), PermissionScope::TaskManage);
    assert_eq!(required_scope(Endpoint::PublishEvents), PermissionScope::EventPublish);
}

#[test]
fn scope_names_and_task_claims() {
    assert_eq!(parse_scope("event:subscribe"), Some(PermissionScope::EventSubscribe));
    assert_eq!(parse_scope("*"), Some(PermissionScope::All));
    assert_eq!(parse_scope("event:nothing"), None);
    assert!(matches!(task_access("*"), TaskIdAccess::All));
    match task_access("t1,t2") {
        TaskIdAccess::List(ids) => assert_eq!(ids, vec!["t1".to_string(), "t2".to_string()]),
        TaskIdAccess::All => panic!("expected a list"),
    }
}
