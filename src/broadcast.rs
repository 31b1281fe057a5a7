use vstd::prelude::*;

use crate::text::{concat, starts_with_part, str_eq};
use crate::types::TaskEvent;

verus! {

/// One registration: its token, its channel and the events delivered to it
/// that it has not taken yet.
pub struct Subscription {
    pub token: u64,
    pub channel: String,
    pub pending: Vec<TaskEvent>,
}

/// What a registration looks like from outside.
pub open spec fn sub_view(s: Subscription) -> (u64, Seq<char>, Seq<TaskEvent>) {
    (s.token, s.channel@, s.pending@)
}

/// The registrations after `e` was published on channel `ch`.
pub open spec fn delivered(
    subs: Seq<(u64, Seq<char>, Seq<TaskEvent>)>,
    ch: Seq<char>,
    e: TaskEvent,
) -> Seq<(u64, Seq<char>, Seq<TaskEvent>)> {
    subs.map_values(
        |s: (u64, Seq<char>, Seq<TaskEvent>)|
            (s.0, s.1, if s.1 == ch {
                s.2.push(e)
            } else {
                s.2
            }),
    )
}

/// Position of the first registration with the given token.
pub open spec fn token_pos(subs: Seq<(u64, Seq<char>, Seq<TaskEvent>)>, token: u64) -> Option<int>
    decreases subs.len(),
{
    if subs.len() == 0 {
        None
    } else {
        match token_pos(subs.drop_last(), token) {
            Some(i) => Some(i),
            None => if subs.last().0 == token {
                Some(subs.len() - 1)
            } else {
                None
            },
        }
    }
}

proof fn lemma_token_pos_extends(subs: Seq<(u64, Seq<char>, Seq<TaskEvent>)>, token: u64, n: int)
    requires
        0 <= n <= subs.len(),
        token_pos(subs.subrange(0, n), token) is Some,
    ensures
        token_pos(subs, token) == token_pos(subs.subrange(0, n), token),
    decreases subs.len() - n,
{
    if n < subs.len() {
        assert(subs.subrange(0, n + 1).drop_last() =~= subs.subrange(0, n));
        lemma_token_pos_extends(subs, token, n + 1);
    } else {
        assert(subs.subrange(0, n) =~= subs);
    }
}

/// An in-process channel bus. `subscribe` hands out a token; `publish`
/// queues the event for every registration on the channel, in publish
/// order; `take_pending` hands a registration its queued events;
/// `unsubscribe` ends a registration and is idempotent.
pub struct MemoryBroadcastProvider {
    subs: Vec<Subscription>,
    next_token: u64,
}

impl MemoryBroadcastProvider {
    /// The registrations, in the order they were made.
    pub closed spec fn subscribers(&self) -> Seq<(u64, Seq<char>, Seq<TaskEvent>)> {
        self.subs@.map_values(|s: Subscription| sub_view(s))
    }

    /// The token that `subscribe` hands out next.
    pub closed spec fn next_token(&self) -> u64 {
        self.next_token
    }

    /// Every token in use is below the next one to be handed out.
    pub closed spec fn wf(&self) -> bool {
        forall|i: int| 0 <= i < self.subs@.len() ==> self.subs@[i].token < self.next_token
    }

    /// A bus without registrations.
    pub fn new() -> (r: Self)
        ensures
            r.wf(),
            r.subscribers() == Seq::<(u64, Seq<char>, Seq<TaskEvent>)>::empty(),
            r.next_token() == 0,
    {
        let r = MemoryBroadcastProvider { subs: Vec::new(), next_token: 0 };
        assert(r.subscribers() =~= Seq::<(u64, Seq<char>, Seq<TaskEvent>)>::empty());
        r
    }

    /// Registers on `channel`; the token differs from every token in use.
    /// `None` where the tokens are exhausted.
    pub fn subscribe(&mut self, channel: &str) -> (r: Option<u64>)
        requires
            old(self).wf(),
        ensures
            final(self).wf(),
            r is None <==> old(self).next_token() == u64::MAX,
            r matches Some(t) ==> t == old(self).next_token() && final(self).next_token() == t + 1,
            r matches Some(t) ==> {
                &&& final(self).subscribers() == old(self).subscribers().push((t, channel@, Seq::empty()))
                &&& forall|i: int| 0 <= i < old(self).subscribers().len() ==> old(self).subscribers()[i].0 != t
            },
            r is None ==> final(self).subscribers() == old(self).subscribers(),
    {
        if self.next_token == u64::MAX {
            return None;
        }
        let t = self.next_token;
        let ghost before = self.subs@;
        self.subs.push(Subscription { token: t, channel: String::from_str(channel), pending: Vec::new() });
        self.next_token = t + 1;
        assert(self.subscribers() =~= old(self).subscribers().push((t, channel@, Seq::empty())));
        Some(t)
    }

    /// Queues `event` for every registration on `channel`.
    pub fn publish(&mut self, channel: &str, event: &TaskEvent)
        requires
            old(self).wf(),
        ensures
            final(self).wf(),
            final(self).subscribers() == delivered(old(self).subscribers(), channel@, *event),
            final(self).subscribers().len() == old(self).subscribers().len(),
            forall|i: int|
                0 <= i < old(self).subscribers().len() ==> #[trigger] final(self).subscribers()[i] == {
                    let s = old(self).subscribers()[i];
                    (s.0, s.1, if s.1 == channel@ {
                        s.2.push(*event)
                    } else {
                        s.2
                    })
                },
    {
        let mut i: usize = 0;
        while i < self.subs.len()
            invariant
                0 <= i <= self.subs@.len(),
                self.subs@.len() == old(self).subs@.len(),
                self.next_token == old(self).next_token,
                forall|j: int| 0 <= j < self.subs@.len() ==> self.subs@[j].token == old(self).subs@[j].token,
                forall|j: int|
                    0 <= j < self.subs@.len() ==> #[trigger] sub_view(self.subs@[j]) == {
                        let s = sub_view(old(self).subs@[j]);
                        if j < i {
                            (s.0, s.1, if s.1 == channel@ {
                                s.2.push(*event)
                            } else {
                                s.2
                            })
                        } else {
                            s
                        }
                    },
            decreases self.subs@.len() - i,
        {
            let ghost before = self.subs@;
            if str_eq(self.subs[i].channel.as_str(), channel) {
                let e = event.duplicate();
                self.subs[i].pending.push(e);
            }
            assert forall|j: int| 0 <= j < self.subs@.len() implies #[trigger] sub_view(self.subs@[j]) == {
                let s = sub_view(old(self).subs@[j]);
                if j < i + 1 {
                    (s.0, s.1, if s.1 == channel@ {
                        s.2.push(*event)
                    } else {
                        s.2
                    })
                } else {
                    s
                }
            } by {
                if j != i {
                    assert(self.subs@[j] == before[j]);
                    assert(sub_view(before[j]) == sub_view(self.subs@[j]));
                } else {
                    assert(sub_view(before[j]) == sub_view(old(self).subs@[j]));
                }
            }
            i = i + 1;
        }
        assert(self.subscribers() =~= delivered(old(self).subscribers(), channel@, *event));
    }

    /// Hands out the events queued for `token` and empties its queue; an
    /// unknown token gets nothing.
    pub fn take_pending(&mut self, token: u64) -> (r: Vec<TaskEvent>)
        requires
            old(self).wf(),
        ensures
            final(self).wf(),
            match token_pos(old(self).subscribers(), token) {
                Some(p) => {
                    &&& r@ == old(self).subscribers()[p].2
                    &&& final(self).subscribers() == old(self).subscribers().update(
                        p,
                        (token, old(self).subscribers()[p].1, Seq::empty()),
                    )
                },
                None => r@ == Seq::<TaskEvent>::empty() && final(self).subscribers() == old(
                    self,
                ).subscribers(),
            },
    {
        match self.find(token) {
            Some(p) => {
                let mut out: Vec<TaskEvent> = Vec::new();
                std::mem::swap(&mut out, &mut self.subs[p].pending);
                assert(self.subscribers() =~= old(self).subscribers().update(
                    p as int,
                    (token, old(self).subscribers()[p as int].1, Seq::empty()),
                ));
                out
            },
            None => Vec::new(),
        }
    }

    /// Ends the registration of `token`; nothing happens where there is
    /// none.
    pub fn unsubscribe(&mut self, token: u64)
        requires
            old(self).wf(),
        ensures
            final(self).wf(),
            final(self).subscribers() == match token_pos(old(self).subscribers(), token) {
                Some(p) => old(self).subscribers().remove(p),
                None => old(self).subscribers(),
            },
    {
        if let Some(p) = self.find(token) {
            self.subs.remove(p);
            assert(self.subscribers() =~= old(self).subscribers().remove(p as int));
        }
    }

    /// Position of the registration of `token`.
    fn find(&self, token: u64) -> (r: Option<usize>)
        ensures
            r matches Some(p) ==> p < self.subs@.len() && token_pos(self.subscribers(), token) == Some(
                p as int,
            ) && self.subs@[p as int].token == token,
            r is None ==> token_pos(self.subscribers(), token) is None,
    {
        let ghost v = self.subscribers();
        let mut i: usize = 0;
        while i < self.subs.len()
            invariant
                0 <= i <= self.subs@.len(),
                v == self.subscribers(),
                v.len() == self.subs@.len(),
                token_pos(v.subrange(0, i as int), token) is None,
            decreases self.subs@.len() - i,
        {
            assert(v.subrange(0, i + 1).drop_last() =~= v.subrange(0, i as int));
            assert(v[i as int] == sub_view(self.subs@[i as int]));
            if self.subs[i].token == token {
                proof {
                    lemma_token_pos_extends(v, token, i + 1);
                }
                return Some(i);
            }
            i = i + 1;
        }
        assert(v.subrange(0, v.len() as int) =~= v);
        None
    }
}

/// The registrations after each of `es` was published on channel `ch`, in
/// order.
pub open spec fn delivered_all(
    subs: Seq<(u64, Seq<char>, Seq<TaskEvent>)>,
    ch: Seq<char>,
    es: Seq<TaskEvent>,
) -> Seq<(u64, Seq<char>, Seq<TaskEvent>)>
    decreases es.len(),
{
    if es.len() == 0 {
        subs
    } else {
        delivered(delivered_all(subs, ch, es.drop_last()), ch, es.last())
    }
}

/// Delivery in publish order: after a run of publishes on one channel,
/// every registration on that channel has received all of them, in the
/// order they were published, after what it held; the others hold what
/// they held.
pub proof fn lemma_delivery_in_order(
    subs: Seq<(u64, Seq<char>, Seq<TaskEvent>)>,
    ch: Seq<char>,
    es: Seq<TaskEvent>,
)
    ensures
        delivered_all(subs, ch, es).len() == subs.len(),
        forall|i: int|
            0 <= i < subs.len() ==> #[trigger] delivered_all(subs, ch, es)[i] == (subs[i].0, subs[i].1, if subs[i].1
                == ch {
                subs[i].2 + es
            } else {
                subs[i].2
            }),
    decreases es.len(),
{
    if es.len() == 0 {
        assert forall|i: int| 0 <= i < subs.len() implies subs[i].2 + es =~= subs[i].2 by {}
    } else {
        lemma_delivery_in_order(subs, ch, es.drop_last());
        assert forall|i: int| 0 <= i < subs.len() implies #[trigger] delivered_all(subs, ch, es)[i] == (
        subs[i].0, subs[i].1, if subs[i].1 == ch {
            subs[i].2 + es
        } else {
            subs[i].2
        }) by {
            let prev = delivered_all(subs, ch, es.drop_last());
            assert(prev[i] == (subs[i].0, subs[i].1, if subs[i].1 == ch {
                subs[i].2 + es.drop_last()
            } else {
                subs[i].2
            }));
            assert(subs[i].2 + es.drop_last() + seq![es.last()] =~= subs[i].2 + es);
        }
    }
}

// ─── Channel names on a shared backend ──────────────────────────────────────

/// The prefix of every task channel under a key prefix: `{prefix}:task:`.
pub fn channel_prefix(prefix: &str) -> (r: String)
    ensures
        r@ == prefix@ + ":task:"@,
{
    concat(prefix, ":task:")
}

/// The channel of a task: the channel prefix followed by the task id.
pub fn channel_name(channel_prefix: &str, task_id: &str) -> (r: String)
    ensures
        r@ == channel_prefix@ + task_id@,
{
    concat(channel_prefix, task_id)
}

/// The task id that a channel name carries: what follows the channel
/// prefix, or the whole name where it does not start with the prefix.
pub fn task_id_from_channel(channel_prefix: &str, channel: &str) -> (r: String)
    ensures
        channel_prefix@.is_prefix_of(channel@) ==> r@ == channel@.subrange(
            channel_prefix@.len() as int,
            channel@.len() as int,
        ),
        !channel_prefix@.is_prefix_of(channel@) ==> r@ == channel@,
{
    let k = channel_prefix.unicode_len();
    assert(channel_prefix@.subrange(0, k as int) =~= channel_prefix@);
    if starts_with_part(channel, channel_prefix, k) {
        let n = channel.unicode_len();
        String::from_str(channel.substring_char(k, n))
    } else {
        String::from_str(channel)
    }
}

/// A task id read back from its channel name is the id it was made from.
pub proof fn lemma_channel_round_trip(channel_prefix: Seq<char>, task_id: Seq<char>)
    ensures
        channel_prefix.is_prefix_of(channel_prefix + task_id),
        (channel_prefix + task_id).subrange(channel_prefix.len() as int, (channel_prefix
            + task_id).len() as int) == task_id,
{
    assert((channel_prefix + task_id).subrange(0, channel_prefix.len() as int) =~= channel_prefix);
    assert((channel_prefix + task_id).subrange(channel_prefix.len() as int, (channel_prefix
        + task_id).len() as int) =~= task_id);
}

} // verus!
