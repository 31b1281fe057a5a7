use vstd::prelude::*;

use crate::types::TaskStatus;

verus! {

/// The transition relation of the task lifecycle.
pub open spec fn allowed(from: TaskStatus, to: TaskStatus) -> bool {
    match from {
        TaskStatus::Pending => to == TaskStatus::Running || to == TaskStatus::Cancelled,
        TaskStatus::Running => to == TaskStatus::Completed || to == TaskStatus::Failed
            || to == TaskStatus::Timeout || to == TaskStatus::Cancelled,
        _ => false,
    }
}

/// Statuses from which no transition leads anywhere.
pub open spec fn terminal(s: TaskStatus) -> bool {
    s == TaskStatus::Completed || s == TaskStatus::Failed || s == TaskStatus::Timeout
        || s == TaskStatus::Cancelled
}

/// The four terminal statuses.
pub fn terminal_statuses() -> (r: Vec<TaskStatus>)
    ensures
        r@ == seq![TaskStatus::Completed, TaskStatus::Failed, TaskStatus::Timeout, TaskStatus::Cancelled],
{
    vec![TaskStatus::Completed, TaskStatus::Failed, TaskStatus::Timeout, TaskStatus::Cancelled]
}

/// The statuses reachable from `from` in one step, in a fixed order.
pub fn allowed_transitions(from: &TaskStatus) -> (r: Vec<TaskStatus>)
    ensures
        r@ == match *from {
            TaskStatus::Pending => seq![TaskStatus::Running, TaskStatus::Cancelled],
            TaskStatus::Running => seq![
                TaskStatus::Completed,
                TaskStatus::Failed,
                TaskStatus::Timeout,
                TaskStatus::Cancelled,
            ],
            _ => Seq::<TaskStatus>::empty(),
        },
        forall|t: TaskStatus| r@.contains(t) <==> allowed(*from, t),
        r@.no_duplicates(),
{
    let r = match from {
        TaskStatus::Pending => vec![TaskStatus::Running, TaskStatus::Cancelled],
        TaskStatus::Running => vec![
            TaskStatus::Completed,
            TaskStatus::Failed,
            TaskStatus::Timeout,
            TaskStatus::Cancelled,
        ],
        _ => Vec::new(),
    };
    assert(r@ =~= match *from {
        TaskStatus::Pending => seq![TaskStatus::Running, TaskStatus::Cancelled],
        TaskStatus::Running => seq![
            TaskStatus::Completed,
            TaskStatus::Failed,
            TaskStatus::Timeout,
            TaskStatus::Cancelled,
        ],
        _ => Seq::<TaskStatus>::empty(),
    });
    assert(forall|t: TaskStatus| r@.contains(t) <==> allowed(*from, t)) by {
        assert forall|t: TaskStatus| r@.contains(t) <==> allowed(*from, t) by {
            if allowed(*from, t) {
                if *from == TaskStatus::Pending {
                    if t == TaskStatus::Running { assert(r@[0] == t); } else { assert(r@[1] == t); }
                } else {
                    if t == TaskStatus::Completed { assert(r@[0] == t); }
                    else if t == TaskStatus::Failed { assert(r@[1] == t); }
                    else if t == TaskStatus::Timeout { assert(r@[2] == t); }
                    else { assert(r@[3] == t); }
                }
            }
        }
    }
    r
}

/// Whether `from -> to` is a legal transition.
pub fn can_transition(from: &TaskStatus, to: &TaskStatus) -> (r: bool)
    ensures
        r == allowed(*from, *to),
{
    if *from == *to {
        return false;
    }
    let allowed_to = allowed_transitions(from);
    let mut i: usize = 0;
    while i < allowed_to.len()
        invariant
            0 <= i <= allowed_to@.len(),
            forall|t: TaskStatus| allowed_to@.contains(t) <==> allowed(*from, t),
            forall|j: int| 0 <= j < i ==> allowed_to@[j] != *to,
        decreases allowed_to@.len() - i,
    {
        if allowed_to[i] == *to {
            assert(allowed_to@.contains(*to));
            return true;
        }
        i = i + 1;
    }
    proof {
        if allowed(*from, *to) {
            assert(allowed_to@.contains(*to));
            let j = choose|j: int| 0 <= j < allowed_to@.len() && allowed_to@[j] == *to;
        }
    }
    false
}

/// Checks a transition; on success returns the target status, otherwise an
/// error message naming both statuses.
pub fn apply_transition(from: &TaskStatus, to: TaskStatus) -> (r: Result<TaskStatus, String>)
    ensures
        r is Ok <==> allowed(*from, to),
        r is Ok ==> r->Ok_0 == to,
        r is Err ==> r->Err_0@ == invalid_transition_message(*from, to),
{
    if !can_transition(from, &to) {
        let mut msg = String::from_str("Invalid transition: ");
        msg.append(status_name(from));
        msg.append(" \u{2192} ");
        msg.append(status_name(&to));
        return Err(msg);
    }
    Ok(to)
}

/// The name of a status as written in messages.
pub open spec fn status_label(s: TaskStatus) -> Seq<char> {
    match s {
        TaskStatus::Pending => "Pending"@,
        TaskStatus::Running => "Running"@,
        TaskStatus::Completed => "Completed"@,
        TaskStatus::Failed => "Failed"@,
        TaskStatus::Timeout => "Timeout"@,
        TaskStatus::Cancelled => "Cancelled"@,
    }
}

/// The message of a refused transition.
pub open spec fn invalid_transition_message(from: TaskStatus, to: TaskStatus) -> Seq<char> {
    "Invalid transition: "@ + status_label(from) + " \u{2192} "@ + status_label(to)
}

/// The name of a status as written in messages.
pub fn status_name(s: &TaskStatus) -> (r: &'static str)
    ensures
        r@ == status_label(*s),
{
    match s {
        TaskStatus::Pending => "Pending",
        TaskStatus::Running => "Running",
        TaskStatus::Completed => "Completed",
        TaskStatus::Failed => "Failed",
        TaskStatus::Timeout => "Timeout",
        TaskStatus::Cancelled => "Cancelled",
    }
}

/// The name of a status on the wire.
pub open spec fn wire_name(s: TaskStatus) -> Seq<char> {
    match s {
        TaskStatus::Pending => "pending"@,
        TaskStatus::Running => "running"@,
        TaskStatus::Completed => "completed"@,
        TaskStatus::Failed => "failed"@,
        TaskStatus::Timeout => "timeout"@,
        TaskStatus::Cancelled => "cancelled"@,
    }
}

/// The name of a status on the wire.
pub fn status_wire_name(s: &TaskStatus) -> (r: &'static str)
    ensures
        r@ == wire_name(*s),
{
    match s {
        TaskStatus::Pending => "pending",
        TaskStatus::Running => "running",
        TaskStatus::Completed => "completed",
        TaskStatus::Failed => "failed",
        TaskStatus::Timeout => "timeout",
        TaskStatus::Cancelled => "cancelled",
    }
}

/// Whether a status is terminal.
pub fn is_terminal(status: &TaskStatus) -> (r: bool)
    ensures
        r == terminal(*status),
{
    match status {
        TaskStatus::Pending | TaskStatus::Running => false,
        _ => true,
    }
}

/// A status is never a legal successor of itself, and terminal statuses
/// have no successors at all.
pub proof fn lemma_transition_totality(a: TaskStatus, b: TaskStatus)
    ensures
        !allowed(a, a),
        terminal(a) ==> !allowed(a, b),
        allowed(a, b) <==> (
            (a == TaskStatus::Pending && (b == TaskStatus::Running || b == TaskStatus::Cancelled))
            || (a == TaskStatus::Running && terminal(b))),
{
}

} // verus!
