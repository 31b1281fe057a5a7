use vstd::prelude::*;

use crate::text::str_eq;
use crate::types::{EventQueryOptions, Level, SinceCursor, SubscribeFilter};

verus! {

/// The query of an event stream, as received: every field is raw text.
#[derive(Clone, Debug, Default)]
pub struct SseQuery {
    pub types: Option<String>,
    pub levels: Option<String>,
    pub include_status: Option<String>,
    pub wrap: Option<String>,
    pub since_id: Option<String>,
    pub since_index: Option<String>,
    pub since_timestamp: Option<String>,
}

/// The non-empty comma-separated parts of `s`, where `cur` is the part
/// read so far.
pub open spec fn split_from(s: Seq<char>, cur: Seq<char>) -> Seq<Seq<char>>
    decreases s.len(),
{
    if s.len() == 0 {
        if cur.len() == 0 {
            Seq::empty()
        } else {
            seq![cur]
        }
    } else if s[0] == ',' {
        (if cur.len() == 0 {
            Seq::empty()
        } else {
            seq![cur]
        }) + split_from(s.drop_first(), Seq::empty())
    } else {
        split_from(s.drop_first(), cur.push(s[0]))
    }
}

/// The non-empty comma-separated parts of `s`, in order.
pub open spec fn comma_list(s: Seq<char>) -> Seq<Seq<char>> {
    split_from(s, Seq::empty())
}

/// The level with the given name on the wire.
pub open spec fn level_named(s: Seq<char>) -> Option<Level> {
    if s == "debug"@ {
        Some(Level::Debug)
    } else if s == "info"@ {
        Some(Level::Info)
    } else if s == "warn"@ {
        Some(Level::Warn)
    } else if s == "error"@ {
        Some(Level::Error)
    } else {
        None
    }
}

/// The levels named in a list of names, unknown names left out.
pub open spec fn levels_named(ps: Seq<Seq<char>>) -> Seq<Level>
    decreases ps.len(),
{
    if ps.len() == 0 {
        Seq::empty()
    } else {
        match level_named(ps.last()) {
            Some(l) => levels_named(ps.drop_last()).push(l),
            None => levels_named(ps.drop_last()),
        }
    }
}

/// Whether every character of `s` is an ASCII digit.
pub open spec fn all_digits(s: Seq<char>) -> bool {
    forall|i: int| 0 <= i < s.len() ==> '0' <= #[trigger] s[i] <= '9'
}

/// The value of a string of decimal digits.
pub open spec fn digits_value(s: Seq<char>) -> int
    decreases s.len(),
{
    if s.len() == 0 {
        0
    } else {
        digits_value(s.drop_last()) * 10 + (s.last() as int - '0' as int)
    }
}

/// The number a decimal text denotes: an optional `+`, then at least one
/// ASCII digit and nothing else, with a value that fits in `u64`.
pub open spec fn decimal_u64(s: Seq<char>) -> Option<u64> {
    let d = if s.len() > 0 && s[0] == '+' {
        s.drop_first()
    } else {
        s
    };
    if d.len() > 0 && all_digits(d) && digits_value(d) <= u64::MAX {
        Some(digits_value(d) as u64)
    } else {
        None
    }
}

proof fn lemma_digits_value_grows(d: Seq<char>, k: int)
    requires
        all_digits(d),
        0 <= k <= d.len(),
    ensures
        digits_value(d.subrange(0, k)) <= digits_value(d),
        0 <= digits_value(d.subrange(0, k)),
    decreases d.len() - k,
{
    if k < d.len() {
        lemma_digits_value_grows(d, k + 1);
        let p = d.subrange(0, k + 1);
        assert(p.drop_last() =~= d.subrange(0, k));
        assert('0' <= p.last() <= '9');
    } else {
        assert(d.subrange(0, k) =~= d);
        lemma_digits_value_nonneg(d);
    }
}

proof fn lemma_digits_value_nonneg(d: Seq<char>)
    requires
        all_digits(d),
    ensures
        0 <= digits_value(d),
    decreases d.len(),
{
    if d.len() > 0 {
        assert(all_digits(d.drop_last())) by {
            assert forall|i: int| 0 <= i < d.drop_last().len() implies '0' <= #[trigger] d.drop_last()[i]
                <= '9' by {
                assert(d.drop_last()[i] == d[i]);
            }
        }
        lemma_digits_value_nonneg(d.drop_last());
        assert('0' <= d.last() <= '9');
    }
}

/// A decimal number: an optional `+`, then ASCII digits, at most `u64::MAX`;
/// the same numbers that `str::parse::<u64>` accepts.
pub fn parse_u64(s: &str) -> (r: Option<u64>)
    ensures
        r == decimal_u64(s@),
{
    let n = s.unicode_len();
    let start: usize = if n > 0 && s.get_char(0) == '+' {
        1
    } else {
        0
    };
    let ghost d = s@.subrange(start as int, n as int);
    assert(d =~= if s@.len() > 0 && s@[0] == '+' {
        s@.drop_first()
    } else {
        s@
    });
    if start == n {
        return None;
    }
    let mut v: u64 = 0;
    let mut i = start;
    assert(d.subrange(0, 0) =~= Seq::<char>::empty());
    while i < n
        invariant
            start <= i <= n,
            n == s@.len(),
            d == s@.subrange(start as int, n as int),
            d == (if s@.len() > 0 && s@[0] == '+' {
                s@.drop_first()
            } else {
                s@
            }),
            d.len() > 0,
            all_digits(d.subrange(0, i - start)),
            v == digits_value(d.subrange(0, i - start)),
        decreases n - i,
    {
        let c = s.get_char(i);
        let ghost p = d.subrange(0, i - start + 1);
        assert(p.drop_last() =~= d.subrange(0, i - start));
        assert(p.last() == c);
        if c < '0' || c > '9' {
            assert(!all_digits(d)) by {
                assert(d[i - start] == c);
            }
            return None;
        }
        let dig = (c as u32 - '0' as u32) as u64;
        if v > (u64::MAX - dig) / 10 {
            proof {
                assert(all_digits(p)) by {
                    assert forall|j: int| 0 <= j < p.len() implies '0' <= #[trigger] p[j] <= '9' by {
                        if j < p.len() - 1 {
                            assert(p[j] == d.subrange(0, i - start)[j]);
                        }
                    }
                }
                assert(digits_value(p) == v * 10 + dig);
                assert(v * 10 + dig > u64::MAX) by (nonlinear_arith)
                    requires
                        v > (u64::MAX - dig) / 10,
                        dig <= 9,
                ;
                if all_digits(d) {
                    lemma_digits_value_grows(d, i - start + 1);
                }
            }
            return None;
        }
        assert(v * 10 + dig <= u64::MAX) by (nonlinear_arith)
            requires
                v <= (u64::MAX - dig) / 10,
                dig <= 9,
        ;
        v = v * 10 + dig;
        proof {
            assert(all_digits(p)) by {
                assert forall|j: int| 0 <= j < p.len() implies '0' <= #[trigger] p[j] <= '9' by {
                    if j < p.len() - 1 {
                        assert(p[j] == d.subrange(0, i - start)[j]);
                    }
                }
            }
        }
        i = i + 1;
    }
    assert(d.subrange(0, n - start) =~= d);
    Some(v)
}

/// The non-empty comma-separated parts of `s`.
pub fn split_commas(s: &str) -> (r: Vec<String>)
    ensures
        r@.map_values(|p: String| p@) == comma_list(s@),
{
    let n = s.unicode_len();
    let mut out: Vec<String> = Vec::new();
    let mut start: usize = 0;
    let mut i: usize = 0;
    assert(s@.subrange(0, n as int) =~= s@);
    assert(s@.subrange(0, 0) =~= Seq::<char>::empty());
    assert(out@.map_values(|p: String| p@) =~= Seq::<Seq<char>>::empty());
    assert(Seq::<Seq<char>>::empty() + comma_list(s@) =~= comma_list(s@));
    while i < n
        invariant
            n == s@.len(),
            start <= i <= n,
            out@.map_values(|p: String| p@) + split_from(s@.subrange(i as int, n as int), s@.subrange(
                start as int,
                i as int,
            )) == comma_list(s@),
        decreases n - i,
    {
        let ghost rest = s@.subrange(i as int, n as int);
        let ghost cur = s@.subrange(start as int, i as int);
        assert(rest.drop_first() =~= s@.subrange(i + 1, n as int));
        assert(rest[0] == s@[i as int]);
        let c = s.get_char(i);
        if c == ',' {
            let ghost before = out@.map_values(|p: String| p@);
            if i > start {
                let piece = String::from_str(s.substring_char(start, i));
                out.push(piece);
                assert(out@.map_values(|p: String| p@) =~= before + seq![cur]);
                assert(before + (seq![cur] + split_from(s@.subrange(i + 1, n as int), Seq::empty()))
                    =~= (before + seq![cur]) + split_from(s@.subrange(i + 1, n as int), Seq::empty()));
            } else {
                assert(cur.len() == 0);
                assert(Seq::<Seq<char>>::empty() + split_from(s@.subrange(i + 1, n as int), Seq::empty())
                    =~= split_from(s@.subrange(i + 1, n as int), Seq::empty()));
            }
            i = i + 1;
            start = i;
            assert(s@.subrange(start as int, i as int) =~= Seq::<char>::empty());
        } else {
            assert(cur.push(s@[i as int]) =~= s@.subrange(start as int, i + 1));
            i = i + 1;
        }
    }
    let ghost before = out@.map_values(|p: String| p@);
    let ghost cur = s@.subrange(start as int, n as int);
    assert(s@.subrange(n as int, n as int) =~= Seq::<char>::empty());
    if start < n {
        let piece = String::from_str(s.substring_char(start, n));
        out.push(piece);
        assert(out@.map_values(|p: String| p@) =~= before + seq![cur]);
    } else {
        assert(before + Seq::<Seq<char>>::empty() =~= before);
    }
    out
}

/// The level with the given name, if any.
pub fn parse_level(s: &str) -> (r: Option<Level>)
    ensures
        r == level_named(s@),
{
    if str_eq(s, "debug") {
        Some(Level::Debug)
    } else if str_eq(s, "info") {
        Some(Level::Info)
    } else if str_eq(s, "warn") {
        Some(Level::Warn)
    } else if str_eq(s, "error") {
        Some(Level::Error)
    } else {
        None
    }
}

/// A flag of the query: anything but the literal `false` means true.
pub open spec fn flag_of(v: Option<String>) -> Option<bool> {
    match v {
        Some(s) => Some(s@ != "false"@),
        None => None,
    }
}

fn flag(v: &Option<String>) -> (r: Option<bool>)
    ensures
        r == flag_of(*v),
{
    match v {
        Some(s) => Some(!str_eq(s.as_str(), "false")),
        None => None,
    }
}

/// The subscribe filter that a stream query asks for: comma-separated type
/// patterns and level names (empty parts and unknown levels dropped), the
/// two flags, and a cursor where any of its fields is given.
pub fn parse_filter(query: &SseQuery) -> (r: SubscribeFilter)
    ensures
        match query.types {
            Some(t) => r.types matches Some(ts) && ts@.map_values(|p: String| p@) == comma_list(t@),
            None => r.types is None,
        },
        match query.levels {
            Some(l) => r.levels matches Some(ls) && ls@ == levels_named(comma_list(l@)),
            None => r.levels is None,
        },
        r.include_status == flag_of(query.include_status),
        r.wrap == flag_of(query.wrap),
        query.since_id is None && query.since_index is None && query.since_timestamp is None
            ==> r.since is None,
        query.since_id is Some || query.since_index is Some || query.since_timestamp is Some ==> (
        r.since matches Some(c) && {
            &&& c.id == query.since_id
            &&& c.index == match query.since_index {
                Some(s) => decimal_u64(s@),
                None => None,
            }
            &&& c.timestamp == match query.since_timestamp {
                Some(s) => decimal_u64(s@),
                None => None,
            }
        }),
{
    let types = match &query.types {
        Some(t) => Some(split_commas(t.as_str())),
        None => None,
    };
    let levels = match &query.levels {
        Some(l) => {
            let parts = split_commas(l.as_str());
            let ghost names = parts@.map_values(|p: String| p@);
            let mut out: Vec<Level> = Vec::new();
            let mut i: usize = 0;
            while i < parts.len()
                invariant
                    0 <= i <= parts@.len(),
                    names == parts@.map_values(|p: String| p@),
                    out@ == levels_named(names.subrange(0, i as int)),
                decreases parts@.len() - i,
            {
                assert(names.subrange(0, i + 1).drop_last() =~= names.subrange(0, i as int));
                assert(names[i as int] == parts@[i as int]@);
                if let Some(lv) = parse_level(parts[i].as_str()) {
                    out.push(lv);
                }
                i = i + 1;
            }
            assert(names.subrange(0, names.len() as int) =~= names);
            Some(out)
        },
        None => None,
    };
    let since = if query.since_id.is_some() || query.since_index.is_some()
        || query.since_timestamp.is_some() {
        Some(
            SinceCursor {
                id: crate::types::copy_opt_string(&query.since_id),
                index: match &query.since_index {
                    Some(s) => parse_u64(s.as_str()),
                    None => None,
                },
                timestamp: match &query.since_timestamp {
                    Some(s) => parse_u64(s.as_str()),
                    None => None,
                },
            },
        )
    } else {
        None
    };
    SubscribeFilter {
        since,
        types,
        levels,
        include_status: flag(&query.include_status),
        wrap: flag(&query.wrap),
    }
}

} // verus!

verus! {

/// The cursor fields of a history request.
#[derive(Clone, Debug, Default)]
pub struct HistoryQuery {
    pub since_index: Option<u64>,
    pub since_timestamp: Option<u64>,
    pub since_id: Option<String>,
}

/// The history read a request asks for: a cursor where any of its fields
/// is given, no limit.
pub fn history_options(query: HistoryQuery) -> (r: Option<EventQueryOptions>)
    ensures
        query.since_id is None && query.since_index is None && query.since_timestamp is None
            ==> r is None,
        query.since_id is Some || query.since_index is Some || query.since_timestamp is Some ==> r
            == Some(
            EventQueryOptions {
                since: Some(
                    SinceCursor {
                        id: query.since_id,
                        index: query.since_index,
                        timestamp: query.since_timestamp,
                    },
                ),
                limit: None,
            },
        ),
{
    if query.since_id.is_some() || query.since_index.is_some() || query.since_timestamp.is_some() {
        Some(
            EventQueryOptions {
                since: Some(
                    SinceCursor {
                        id: query.since_id,
                        index: query.since_index,
                        timestamp: query.since_timestamp,
                    },
                ),
                limit: None,
            },
        )
    } else {
        None
    }
}

} // verus!
