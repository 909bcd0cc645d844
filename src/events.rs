use vstd::prelude::*;
use alloy_rpc_types_beacon::events::HeadEvent;
use crate::control::HeadObservation;

verus! {

/// Unicode white space, as `char::is_whitespace` reads it.
pub open spec fn is_ws(c: char) -> bool {
    ||| c == '\t' || c == '\n' || c == '\u{0B}' || c == '\u{0C}' || c == '\r' || c == ' '
    ||| c == '\u{85}' || c == '\u{A0}' || c == '\u{1680}'
    ||| ('\u{2000}' <= c && c <= '\u{200A}')
    ||| c == '\u{2028}' || c == '\u{2029}' || c == '\u{202F}' || c == '\u{205F}' || c == '\u{3000}'
}

fn is_white(c: char) -> (r: bool)
    ensures
        r == is_ws(c),
{
    c == '\t' || c == '\n' || c == '\u{0B}' || c == '\u{0C}' || c == '\r' || c == ' ' || c
        == '\u{85}' || c == '\u{A0}' || c == '\u{1680}' || ('\u{2000}' <= c && c <= '\u{200A}')
        || c == '\u{2028}' || c == '\u{2029}' || c == '\u{202F}' || c == '\u{205F}' || c
        == '\u{3000}'
}

pub open spec fn data_tag() -> Seq<char> {
    seq!['d', 'a', 't', 'a', ':']
}

/// End of the line that starts at `i`: the next line feed, or the end.
pub open spec fn line_end(s: Seq<char>, i: int) -> int
    decreases s.len() - i,
{
    if i >= s.len() || s[i] == '\n' {
        i
    } else {
        line_end(s, i + 1)
    }
}

/// Whether `s[i..e]` starts with the `data:` tag.
pub open spec fn tagged(s: Seq<char>, i: int, e: int) -> bool {
    e - i >= 5 && s.subrange(i, i + 5) == data_tag()
}

/// Start of `s[i..e]` after leading white space.
pub open spec fn skip_ws(s: Seq<char>, i: int, e: int) -> int
    decreases e - i,
{
    if i < e && is_ws(s[i]) {
        skip_ws(s, i + 1, e)
    } else {
        i
    }
}

/// End of `s[i..e]` before trailing white space.
pub open spec fn drop_ws(s: Seq<char>, i: int, e: int) -> int
    decreases e - i,
{
    if i < e && is_ws(s[e - 1]) {
        drop_ws(s, i, e - 1)
    } else {
        e
    }
}

/// The event body of the first line, from `i` on, that starts with `data:`:
/// the rest of the line after that one tag, without surrounding white space.
pub open spec fn data_from(s: Seq<char>, i: int) -> Option<Seq<char>>
    decreases s.len() - i,
    via data_from_decreases
{
    if i < 0 || i >= s.len() {
        None
    } else {
        let e = line_end(s, i);
        if tagged(s, i, e) {
            let a = skip_ws(s, i + 5, e);
            Some(s.subrange(a, drop_ws(s, a, e)))
        } else if e < s.len() {
            data_from(s, e + 1)
        } else {
            None
        }
    }
}

#[via_fn]
proof fn data_from_decreases(s: Seq<char>, i: int) {
    if 0 <= i < s.len() {
        lemma_line_end(s, i);
    }
}

proof fn lemma_line_end(s: Seq<char>, i: int)
    requires
        0 <= i <= s.len(),
    ensures
        i <= line_end(s, i) <= s.len(),
    decreases s.len() - i,
{
    if i < s.len() && s[i] != '\n' {
        lemma_line_end(s, i + 1);
    }
}

fn tagged_at(s: &Vec<char>, i: usize, e: usize) -> (r: bool)
    requires
        i <= e <= s@.len(),
    ensures
        r == tagged(s@, i as int, e as int),
{
    if e - i < 5 {
        return false;
    }
    let r = s[i] == 'd' && s[i + 1] == 'a' && s[i + 2] == 't' && s[i + 3] == 'a' && s[i + 4] == ':';
    proof {
        if r {
            assert(s@.subrange(i as int, i + 5) =~= data_tag());
        } else {
            if s@.subrange(i as int, i + 5) == data_tag() {
                assert(s@.subrange(i as int, i + 5)[0] == s@[i as int]);
                assert(s@.subrange(i as int, i + 5)[1] == s@[i + 1]);
                assert(s@.subrange(i as int, i + 5)[2] == s@[i + 2]);
                assert(s@.subrange(i as int, i + 5)[3] == s@[i + 3]);
                assert(s@.subrange(i as int, i + 5)[4] == s@[i + 4]);
            }
        }
    }
    r
}

/// The characters of the text.
fn chars_of(text: &str) -> (r: Vec<char>)
    ensures
        r@ == text@,
{
    let n = text.unicode_len();
    let mut out: Vec<char> = Vec::new();
    let mut i: usize = 0;
    while i < n
        invariant
            n == text@.len(),
            i <= n,
            out@ == text@.subrange(0, i as int),
        decreases n - i,
    {
        out.push(text.get_char(i));
        assert(out@ =~= text@.subrange(0, i + 1));
        i = i + 1;
    }
    assert(out@ =~= text@);
    out
}

/// The event body of a server-sent-events frame: the rest of the first line
/// that starts with `data:`, after that tag, without surrounding white space.
pub fn extract_json(event_text: &str) -> (r: Option<String>)
    ensures
        match r {
            Some(t) => data_from(event_text@, 0) == Some(t@),
            None => data_from(event_text@, 0) is None,
        },
{
    let s = chars_of(event_text);
    let n = s.len();
    let mut i: usize = 0;
    while i < n
        invariant
            n == s@.len(),
            s@ == event_text@,
            i <= n,
            data_from(s@, 0) == data_from(s@, i as int),
        decreases n - i,
    {
        let mut e = i;
        while e < n && s[e] != '\n'
            invariant
                i <= e <= n,
                n == s@.len(),
                line_end(s@, i as int) == line_end(s@, e as int),
            decreases n - e,
        {
            e = e + 1;
        }
        if tagged_at(&s, i, e) {
            let mut a = i + 5;
            while a < e && is_white(s[a])
                invariant
                    i <= a <= e <= n,
                    n == s@.len(),
                    skip_ws(s@, i + 5, e as int) == skip_ws(
                        s@,
                        a as int,
                        e as int,
                    ),
                decreases e - a,
            {
                a = a + 1;
            }
            let mut b = e;
            while a < b && is_white(s[b - 1])
                invariant
                    a <= b <= e <= n,
                    n == s@.len(),
                    drop_ws(s@, a as int, e as int) == drop_ws(s@, a as int, b as int),
                decreases b - a,
            {
                b = b - 1;
            }
            let body = event_text.substring_char(a, b);
            return Some(String::from_str(body));
        }
        if e >= n {
            return None;
        }
        i = e + 1;
    }
    None
}

/// The slot and epoch-transition flag of a head event body, if it parses.
pub uninterp spec fn head_event_of(json: Seq<char>) -> Option<(u64, bool)>;

/// Relies on serde_json::from_str for alloy_rpc_types_beacon's HeadEvent: the
/// outcome is a function of the text alone; the slot and the epoch-transition
/// flag are read from the parsed event.
#[verifier::external_body]
fn parse_head_event(json: &str) -> (r: Option<(u64, bool)>)
    ensures
        r == head_event_of(json@),
{
    serde_json::from_str::<HeadEvent>(json).ok().map(|e| (e.slot, e.epoch_transition))
}

/// The observation a parsed head event gives.
pub fn observation_of(parsed: Option<(u64, bool)>) -> (r: Option<HeadObservation>)
    ensures
        r == match parsed {
            Some((slot, flag)) => Some(HeadObservation { slot, epoch_transition: flag }),
            None => None::<HeadObservation>,
        },
{
    match parsed {
        Some((slot, flag)) => Some(HeadObservation { slot, epoch_transition: flag }),
        None => None,
    }
}

/// The head observation in a server-sent-events frame, if the frame carries a
/// body that parses as a head event.
pub fn parse_head_frame(frame: &str) -> (r: Option<HeadObservation>)
    ensures
        r == match data_from(frame@, 0) {
            Some(body) => match head_event_of(body) {
                Some((slot, flag)) => Some(HeadObservation { slot, epoch_transition: flag }),
                None => None::<HeadObservation>,
            },
            None => None::<HeadObservation>,
        },
{
    match extract_json(frame) {
        Some(body) => observation_of(parse_head_event(body.as_str())),
        None => None,
    }
}

} // verus!
