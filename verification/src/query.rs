//! Query-string lookup: find a key's value in a `?a=b&c=d` string and
//! percent-decode it.
use vstd::prelude::*;

verus! {

use crate::labels::str_eq;

/// The position of the first occurrence of `c` at or after `from`, or the
/// length when there is none.
pub open spec fn spec_find(s: Seq<char>, c: char, from: int) -> int
    decreases s.len() - from,
{
    if from < 0 || from >= s.len() {
        s.len() as int
    } else if s[from] == c {
        from
    } else {
        spec_find(s, c, from + 1)
    }
}

pub proof fn lemma_find_range(s: Seq<char>, c: char, from: int)
    requires
        0 <= from <= s.len(),
    ensures
        from <= spec_find(s, c, from) <= s.len(),
    decreases s.len() - from,
{
    if from < s.len() && s[from] != c {
        lemma_find_range(s, c, from + 1);
    }
}

/// The raw (undecoded) value of `key` in a `a=b&c=d` string: the first
/// pair whose key matches, the part after its first `=` (empty when the
/// pair has no `=`).
pub open spec fn spec_query_raw(s: Seq<char>, key: Seq<char>) -> Option<Seq<char>>
    decreases s.len(),
{
    let amp = spec_find(s, '&', 0);
    let pair = s.subrange(0, amp);
    let eq = spec_find(pair, '=', 0);
    let k = pair.subrange(0, eq);
    let v = if eq < pair.len() {
        pair.subrange(eq + 1, pair.len() as int)
    } else {
        Seq::empty()
    };
    if k == key {
        Some(v)
    } else if amp < 0 || amp >= s.len() {
        None
    } else {
        spec_query_raw(s.subrange(amp + 1, s.len() as int), key)
    }
}

/// The string with every leading `?` removed.
pub open spec fn spec_skip_qmarks(s: Seq<char>) -> Seq<char>
    decreases s.len(),
{
    if s.len() > 0 && s[0] == '?' {
        spec_skip_qmarks(s.subrange(1, s.len() as int))
    } else {
        s
    }
}

/// The string with `+` replaced by a space.
pub open spec fn spec_plus_to_space(s: Seq<char>) -> Seq<char> {
    s.map(|_i: int, c: char| if c == '+' { ' ' } else { c })
}

/// What percent-decoding (with lossy UTF-8 recovery) makes of a string;
/// a pure function of the characters alone.
pub uninterp spec fn percent_decoded_lossy(s: Seq<char>) -> Seq<char>;

/// Relies on percent_encoding::percent_decode_str and decode_utf8_lossy:
/// the result depends on the input characters alone, and an input without
/// `%` comes back unchanged.
#[verifier::external_body]
fn percent_decode_lossy(s: &str) -> (r: String)
    ensures
        r@ == percent_decoded_lossy(s@),
        (forall|i: int| 0 <= i < s@.len() ==> s@[i] != '%') ==> r@ == s@,
{
    percent_encoding::percent_decode_str(s).decode_utf8_lossy().to_string()
}

/// Best-effort URL decoding: `+` becomes a space, percent sequences are
/// decoded with lossy UTF-8 recovery.
pub fn url_decode(s: &str) -> (r: String)
    ensures
        r@ == percent_decoded_lossy(spec_plus_to_space(s@)),
{
    let n = s.unicode_len();
    let mut plus = String::new();
    let mut i: usize = 0;
    while i < n
        invariant
            0 <= i <= n,
            n == s@.len(),
            plus@ == spec_plus_to_space(s@).subrange(0, i as int),
        decreases n - i,
    {
        let c = s.get_char(i);
        if c == '+' {
            plus.append(" ");
            proof {
                reveal_strlit(" ");
                assert(plus@ =~= spec_plus_to_space(s@).subrange(0, i as int + 1));
            }
        } else {
            let piece = s.substring_char(i, i + 1);
            plus.append(piece);
            proof {
                assert(piece@ =~= seq![s@[i as int]]);
                assert(plus@ =~= spec_plus_to_space(s@).subrange(0, i as int + 1));
            }
        }
        i = i + 1;
    }
    proof {
        assert(plus@ =~= spec_plus_to_space(s@));
    }
    percent_decode_lossy(plus.as_str())
}

fn find_char(s: &str, c: char, from: usize) -> (r: usize)
    requires
        from <= s@.len(),
    ensures
        r == spec_find(s@, c, from as int),
        from <= r <= s@.len(),
{
    proof {
        lemma_find_range(s@, c, from as int);
    }
    let n = s.unicode_len();
    let mut i = from;
    while i < n
        invariant
            from <= i <= n,
            n == s@.len(),
            spec_find(s@, c, from as int) == spec_find(s@, c, i as int),
        decreases n - i,
    {
        if s.get_char(i) == c {
            return i;
        }
        i = i + 1;
    }
    i
}

fn query_lookup(s: &str, key: &str) -> (r: Option<String>)
    ensures
        match r {
            Some(v) => spec_query_raw(s@, key@) == Some(v@),
            None => spec_query_raw(s@, key@) is None,
        },
    decreases s@.len(),
{
    let n = s.unicode_len();
    let amp = find_char(s, '&', 0);
    let pair = s.substring_char(0, amp);
    proof {
        assert(pair@ == s@.subrange(0, amp as int));
    }
    let eq = find_char(pair, '=', 0);
    let k = pair.substring_char(0, eq);
    let v: String = if eq < amp {
        pair.substring_char(eq + 1, amp).to_owned()
    } else {
        String::new()
    };
    proof {
        assert(k@ == pair@.subrange(0, eq as int));
        if eq < amp {
            assert(v@ == pair@.subrange(eq as int + 1, pair@.len() as int));
        } else {
            assert(v@ =~= Seq::<char>::empty());
        }
    }
    if str_eq(k, key) {
        Some(v)
    } else if amp >= n {
        None
    } else {
        let rest = s.substring_char(amp + 1, n);
        proof {
            assert(rest@ == s@.subrange(amp as int + 1, s@.len() as int));
            assert(rest@.len() < s@.len());
        }
        query_lookup(rest, key)
    }
}

/// Look a key up in a `?a=b&c=d` query string; the value comes back
/// URL-decoded.
pub fn get_query_param(search: &str, key: &str) -> (r: Option<String>)
    ensures
        match spec_query_raw(spec_skip_qmarks(search@), key@) {
            Some(v) => match r {
                Some(out) => out@ == percent_decoded_lossy(spec_plus_to_space(v)),
                None => false,
            },
            None => r is None,
        },
{
    let mut start: usize = 0;
    let n = search.unicode_len();
    proof {
        assert(search@.subrange(0, n as int) =~= search@);
    }
    while start < n && search.get_char(start) == '?'
        invariant
            0 <= start <= n,
            n == search@.len(),
            spec_skip_qmarks(search@) == spec_skip_qmarks(
                search@.subrange(start as int, n as int),
            ),
        decreases n - start,
    {
        proof {
            let cur = search@.subrange(start as int, n as int);
            assert(cur[0] == search@[start as int]);
            assert(cur.subrange(1, cur.len() as int) =~= search@.subrange(
                start as int + 1,
                n as int,
            ));
        }
        start = start + 1;
    }
    let trimmed = search.substring_char(start, n);
    proof {
        assert(trimmed@ == search@.subrange(start as int, n as int));
        if start < n {
            assert(spec_skip_qmarks(trimmed@) == trimmed@);
        } else {
            assert(trimmed@ =~= Seq::<char>::empty());
            assert(spec_skip_qmarks(trimmed@) == trimmed@);
        }
    }
    match query_lookup(trimmed, key) {
        Some(v) => Some(url_decode(v.as_str())),
        None => None,
    }
}

} // verus!
