use vstd::prelude::*;

verus! {

/// Whether two strings hold the same characters.
pub fn str_eq(a: &str, b: &str) -> (r: bool)
    ensures
        r == (a@ == b@),
{
    let n = a.unicode_len();
    if n != b.unicode_len() {
        return false;
    }
    let mut i: usize = 0;
    while i < n
        invariant
            n == a@.len(),
            n == b@.len(),
            0 <= i <= n,
            forall|j: int| 0 <= j < i ==> a@[j] == b@[j],
        decreases n - i,
    {
        if a.get_char(i) != b.get_char(i) {
            return false;
        }
        i = i + 1;
    }
    assert(a@ =~= b@);
    true
}

/// Whether the first `k` characters of `p` begin `t`.
pub fn starts_with_part(t: &str, p: &str, k: usize) -> (r: bool)
    requires
        k <= p@.len(),
    ensures
        r == p@.subrange(0, k as int).is_prefix_of(t@),
{
    let n = t.unicode_len();
    if k > n {
        return false;
    }
    let mut i: usize = 0;
    while i < k
        invariant
            n == t@.len(),
            k <= n,
            k <= p@.len(),
            0 <= i <= k,
            forall|j: int| 0 <= j < i ==> p@[j] == t@[j],
        decreases k - i,
    {
        if p.get_char(i) != t.get_char(i) {
            assert(p@.subrange(0, k as int)[i as int] != t@.subrange(0, k as int)[i as int]);
            return false;
        }
        i = i + 1;
    }
    assert(p@.subrange(0, k as int) =~= t@.subrange(0, k as int));
    true
}

/// `s` followed by `t`, as a new string.
pub fn concat(s: &str, t: &str) -> (r: String)
    ensures
        r@ == s@ + t@,
{
    let mut r = String::from_str(s);
    r.append(t);
    r
}

} // verus!
