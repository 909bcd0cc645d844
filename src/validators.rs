use vstd::prelude::*;
use crate::error::Error;

verus! {

/// The value of a non-empty string of decimal digits; `None` for anything else.
pub open spec fn digits_value(s: Seq<char>) -> Option<nat>
    decreases s.len(),
{
    if s.len() == 0 {
        None
    } else if !('0' <= s.last() && s.last() <= '9') {
        None
    } else if s.len() == 1 {
        Some((s.last() as nat - '0' as nat) as nat)
    } else {
        match digits_value(s.drop_last()) {
            Some(v) => Some(v * 10 + (s.last() as nat - '0' as nat) as nat),
            None => None,
        }
    }
}

/// The digits after an optional leading `+`.
pub open spec fn unsigned_body(s: Seq<char>) -> Seq<char> {
    if s.len() > 0 && s[0] == '+' {
        s.drop_first()
    } else {
        s
    }
}

/// What `u64::from_str` reads from the text: an optional `+`, then one or more
/// decimal digits whose value fits in `u64`.
pub open spec fn u64_text_value(s: Seq<char>) -> Option<u64> {
    match digits_value(unsigned_body(s)) {
        Some(v) => if v <= u64::MAX {
            Some(v as u64)
        } else {
            None
        },
        None => None,
    }
}

/// A prefix that is not a number makes every longer string not a number.
proof fn lemma_digits_prefix_none(s: Seq<char>, k: int)
    requires
        1 <= k <= s.len(),
        !('0' <= s[k - 1] && s[k - 1] <= '9'),
    ensures
        digits_value(s) is None,
    decreases s.len(),
{
    if s.len() > k {
        lemma_digits_prefix_none(s.drop_last(), k);
    }
}

/// A number is at least the value of each of its non-empty prefixes.
proof fn lemma_digits_prefix_le(s: Seq<char>, k: int)
    requires
        1 <= k <= s.len(),
        digits_value(s) is Some,
    ensures
        digits_value(s.subrange(0, k)) is Some,
        digits_value(s.subrange(0, k))->0 <= digits_value(s)->0,
    decreases s.len(),
{
    if k == s.len() {
        assert(s.subrange(0, k) =~= s);
    } else {
        assert(s.drop_last().subrange(0, k) =~= s.subrange(0, k));
        lemma_digits_prefix_le(s.drop_last(), k);
    }
}

/// Reads a validator index as `u64::from_str` does (the beacon API writes
/// indices as decimal strings): an optional `+`, then decimal digits whose
/// value fits in `u64`.
pub fn parse_index(text: &str) -> (r: Option<u64>)
    ensures
        r == u64_text_value(text@),
{
    let n = text.unicode_len();
    let start: usize = if n > 0 && text.get_char(0) == '+' {
        1
    } else {
        0
    };
    let ghost body = text@.subrange(start as int, n as int);
    assert(body =~= unsigned_body(text@));
    if start == n {
        return None;
    }
    let mut value: u64 = 0;
    let mut i: usize = start;
    while i < n
        invariant
            n == text@.len(),
            start < n,
            start <= i <= n,
            body == text@.subrange(start as int, n as int),
            body == unsigned_body(text@),
            i > start ==> digits_value(body.subrange(0, i - start)) == Some(value as nat),
            i == start ==> value == 0,
        decreases n - i,
    {
        let c = text.get_char(i);
        let pre = Ghost(body.subrange(0, i - start + 1));
        proof {
            assert(pre@.drop_last() =~= body.subrange(0, i - start));
            assert(pre@.last() == c);
            assert(body[i - start] == c);
        }
        if !('0' <= c && c <= '9') {
            proof {
                lemma_digits_prefix_none(body, i - start + 1);
            }
            return None;
        }
        let d = (c as u32 - '0' as u32) as u64;
        if value > (u64::MAX - d) / 10 {
            proof {
                assert(value * 10 + d > u64::MAX) by (nonlinear_arith)
                    requires
                        value > (u64::MAX - d) / 10,
                        d <= 9,
                ;
                assert(digits_value(pre@) == Some((value * 10 + d) as nat));
                if digits_value(body) is Some {
                    lemma_digits_prefix_le(body, i - start + 1);
                }
            }
            return None;
        }
        proof {
            assert(value * 10 + d <= u64::MAX) by (nonlinear_arith)
                requires
                    value <= (u64::MAX - d) / 10,
                    d <= 9,
            ;
        }
        value = value * 10 + d;
        i = i + 1;
    }
    assert(body.subrange(0, n - start) =~= body);
    Some(value)
}

/// The public key of the first validator listed under `index`, if any.
pub open spec fn key_for(validators: Seq<(u64, String)>, index: u64) -> Option<String>
    decreases validators.len(),
{
    if validators.len() == 0 {
        None
    } else {
        match key_for(validators.drop_last(), index) {
            Some(k) => Some(k),
            None => if validators.last().0 == index {
                Some(validators.last().1)
            } else {
                None
            },
        }
    }
}

fn find_key(validators: &Vec<(u64, String)>, index: u64) -> (r: Option<String>)
    ensures
        r == key_for(validators@, index),
{
    let mut i: usize = 0;
    while i < validators.len()
        invariant
            i <= validators@.len(),
            key_for(validators@.subrange(0, i as int), index) is None,
        decreases validators@.len() - i,
    {
        proof {
            let pre = validators@.subrange(0, i + 1);
            assert(pre.drop_last() =~= validators@.subrange(0, i as int));
        }
        if validators[i].0 == index {
            let key = validators[i].1.clone();
            proof {
                lemma_key_for_prefix(validators@, (i + 1) as int, index);
            }
            return Some(key);
        }
        i = i + 1;
    }
    assert(validators@.subrange(0, validators@.len() as int) =~= validators@);
    None
}

/// Once a prefix holds the index, the whole list answers as the prefix does.
proof fn lemma_key_for_prefix(v: Seq<(u64, String)>, n: int, index: u64)
    requires
        0 <= n <= v.len(),
        key_for(v.subrange(0, n), index) is Some,
    ensures
        key_for(v, index) == key_for(v.subrange(0, n), index),
    decreases v.len() - n,
{
    if n < v.len() {
        let longer = v.subrange(0, n + 1);
        assert(longer.drop_last() =~= v.subrange(0, n));
        lemma_key_for_prefix(v, n + 1, index);
    } else {
        assert(v.subrange(0, n) =~= v);
    }
}

/// The public keys of the committee, in the order of the requested indices,
/// matched against the validators the beacon node returned (index, key). Fails
/// when an index has no validator.
pub fn match_validator_pubkeys(indexes: &Vec<u64>, validators: &Vec<(u64, String)>) -> (r: Result<
    Vec<String>,
    Error,
>)
    ensures
        (forall|i: int| 0 <= i < indexes@.len() ==> key_for(validators@, #[trigger] indexes@[i]) is Some)
            <==> r is Ok,
        r is Ok ==> r->Ok_0@.len() == indexes@.len() && forall|i: int|
            0 <= i < indexes@.len() ==> Some(#[trigger] r->Ok_0@[i]) == key_for(validators@, indexes@[i]),
        r is Err ==> r == Err::<Vec<String>, Error>(Error::FetchSyncCommitteeError),
{
    let mut keys: Vec<String> = Vec::new();
    let mut i: usize = 0;
    while i < indexes.len()
        invariant
            i <= indexes@.len(),
            keys@.len() == i,
            forall|k: int| 0 <= k < i ==> Some(#[trigger] keys@[k]) == key_for(validators@, indexes@[k]),
        decreases indexes@.len() - i,
    {
        match find_key(validators, indexes[i]) {
            Some(key) => keys.push(key),
            None => {
                assert(key_for(validators@, indexes@[i as int]) is None);
                return Err(Error::FetchSyncCommitteeError);
            },
        }
        i = i + 1;
    }
    assert forall|k: int| 0 <= k < indexes@.len() implies key_for(validators@, #[trigger] indexes@[k]) is Some by {
        assert(Some(keys@[k]) == key_for(validators@, indexes@[k]));
    }
    Ok(keys)
}

} // verus!
