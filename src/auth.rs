use vstd::prelude::*;

use crate::filter::views;
use crate::text::str_eq;
use crate::types::PermissionScope;

verus! {

/// Which tasks a caller may touch.
#[derive(Clone, Debug)]
pub enum TaskIdAccess {
    All,
    List(Vec<String>),
}

/// The identity and permissions of a caller.
#[derive(Clone, Debug)]
pub struct AuthContext {
    pub sub: Option<String>,
    pub task_ids: TaskIdAccess,
    pub scope: Vec<PermissionScope>,
}

/// Whether a caller holds scope `required`, on task `task_id` where one is
/// named: the task is within reach and the scope is granted, by name or by
/// the wildcard.
pub open spec fn scope_allows(auth: AuthContext, required: PermissionScope, task_id: Option<Seq<char>>) -> bool {
    &&& (task_id matches Some(t) ==> (auth.task_ids matches TaskIdAccess::List(ids) ==> views(
        ids@,
    ).contains(t)))
    &&& (auth.scope@.contains(PermissionScope::All) || auth.scope@.contains(required))
}

impl AuthContext {
    /// The context of a deployment without authentication: every task,
    /// every scope.
    pub fn open() -> (r: AuthContext)
        ensures
            r.sub is None,
            r.task_ids is All,
            r.scope@ == seq![PermissionScope::All],
    {
        AuthContext { sub: None, task_ids: TaskIdAccess::All, scope: vec![PermissionScope::All] }
    }
}

/// Whether `s` is one of `scopes`.
fn scope_in(s: PermissionScope, scopes: &Vec<PermissionScope>) -> (r: bool)
    ensures
        r == scopes@.contains(s),
{
    let mut i: usize = 0;
    while i < scopes.len()
        invariant
            0 <= i <= scopes@.len(),
            forall|j: int| 0 <= j < i ==> scopes@[j] != s,
        decreases scopes@.len() - i,
    {
        if scopes[i] == s {
            assert(scopes@[i as int] == s);
            return true;
        }
        i = i + 1;
    }
    false
}

/// Whether the caller may perform an operation that needs `required`, on
/// `task_id` where the operation concerns one task.
pub fn check_scope(auth: &AuthContext, required: PermissionScope, task_id: Option<&str>) -> (r: bool)
    ensures
        r == scope_allows(*auth, required, match task_id {
            Some(t) => Some(t@),
            None => None,
        }),
{
    if let Some(t) = task_id {
        if let TaskIdAccess::List(ids) = &auth.task_ids {
            let ghost vs = views(ids@);
            let mut i: usize = 0;
            let mut found = false;
            while i < ids.len()
                invariant
                    0 <= i <= ids@.len(),
                    vs == views(ids@),
                    found ==> vs.contains(t@),
                    !found ==> forall|j: int| 0 <= j < i ==> vs[j] != t@,
                decreases ids@.len() - i,
            {
                if str_eq(ids[i].as_str(), t) {
                    assert(vs[i as int] == t@);
                    found = true;
                }
                i = i + 1;
            }
            if !found {
                return false;
            }
        }
    }
    scope_in(PermissionScope::All, &auth.scope) || scope_in(required, &auth.scope)
}

} // verus!

verus! {

/// The operations of the HTTP surface.
#[derive(Clone, Copy, Debug, PartialEq, Eq, Structural)]
pub enum Endpoint {
    CreateTask,
    GetTask,
    TransitionTask,
    PublishEvents,
    EventHistory,
    EventStream,
}

/// The scope an operation needs.
pub open spec fn scope_for(e: Endpoint) -> PermissionScope {
    match e {
        Endpoint::CreateTask => PermissionScope::TaskCreate,
        Endpoint::GetTask => PermissionScope::EventSubscribe,
        Endpoint::TransitionTask => PermissionScope::TaskManage,
        Endpoint::PublishEvents => PermissionScope::EventPublish,
        Endpoint::EventHistory => PermissionScope::EventHistory,
        Endpoint::EventStream => PermissionScope::EventSubscribe,
    }
}

/// The scope an operation needs: creating a task needs `task:create`;
/// reading a task or its stream `event:subscribe`; a transition
/// `task:manage`; publishing `event:publish`; history `event:history`.
pub fn required_scope(e: Endpoint) -> (r: PermissionScope)
    ensures
        r == scope_for(e),
{
    match e {
        Endpoint::CreateTask => PermissionScope::TaskCreate,
        Endpoint::GetTask => PermissionScope::EventSubscribe,
        Endpoint::TransitionTask => PermissionScope::TaskManage,
        Endpoint::PublishEvents => PermissionScope::EventPublish,
        Endpoint::EventHistory => PermissionScope::EventHistory,
        Endpoint::EventStream => PermissionScope::EventSubscribe,
    }
}

/// Whether a caller may perform an operation, on `task_id` where it
/// concerns one task.
pub fn authorize(auth: &AuthContext, e: Endpoint, task_id: Option<&str>) -> (r: bool)
    ensures
        r == scope_allows(*auth, scope_for(e), match task_id {
            Some(t) => Some(t@),
            None => None,
        }),
{
    check_scope(auth, required_scope(e), task_id)
}

} // verus!

verus! {

/// The scope with the given name on the wire.
pub open spec fn scope_named(s: Seq<char>) -> Option<PermissionScope> {
    if s == "task:create"@ {
        Some(PermissionScope::TaskCreate)
    } else if s == "task:manage"@ {
        Some(PermissionScope::TaskManage)
    } else if s == "event:publish"@ {
        Some(PermissionScope::EventPublish)
    } else if s == "event:subscribe"@ {
        Some(PermissionScope::EventSubscribe)
    } else if s == "event:history"@ {
        Some(PermissionScope::EventHistory)
    } else if s == "webhook:create"@ {
        Some(PermissionScope::WebhookCreate)
    } else if s == "*"@ {
        Some(PermissionScope::All)
    } else {
        None
    }
}

/// The scope with the given name, if any.
pub fn parse_scope(name: &str) -> (r: Option<PermissionScope>)
    ensures
        r == scope_named(name@),
{
    if str_eq(name, "task:create") {
        Some(PermissionScope::TaskCreate)
    } else if str_eq(name, "task:manage") {
        Some(PermissionScope::TaskManage)
    } else if str_eq(name, "event:publish") {
        Some(PermissionScope::EventPublish)
    } else if str_eq(name, "event:subscribe") {
        Some(PermissionScope::EventSubscribe)
    } else if str_eq(name, "event:history") {
        Some(PermissionScope::EventHistory)
    } else if str_eq(name, "webhook:create") {
        Some(PermissionScope::WebhookCreate)
    } else if str_eq(name, "*") {
        Some(PermissionScope::All)
    } else {
        None
    }
}

/// The task reach a `taskIds` claim grants: `*` is every task, anything
/// else a comma-separated list of ids.
pub fn task_access(claim: &str) -> (r: TaskIdAccess)
    ensures
        claim@ == "*"@ ==> r is All,
        claim@ != "*"@ ==> (r matches TaskIdAccess::List(ids) && views(ids@)
            == crate::query::comma_list(claim@)),
{
    if str_eq(claim, "*") {
        TaskIdAccess::All
    } else {
        let ids = crate::query::split_commas(claim);
        assert(views(ids@) =~= ids@.map_values(|p: String| p@));
        TaskIdAccess::List(ids)
    }
}

} // verus!
