//! The `server-timing` response header, from which the client reads how long
//! the server itself spent on a request (`...;dur=<milliseconds>...`).
use vstd::prelude::*;
use crate::text::{chars_of, find_from, find_pattern_from, lemma_find_from_found, lemma_find_from_skip, occurs_at};

verus! {

/// The marker that precedes the duration in a `server-timing` header.
pub open spec fn dur_marker() -> Seq<char> {
    seq![';', 'd', 'u', 'r', '=']
}

/// The second piece of `header` split on `;dur=`: the text after the first
/// marker, up to the next marker or the end; `None` where no marker occurs.
pub open spec fn duration_field(header: Seq<char>) -> Option<Seq<char>> {
    match find_from(header, dur_marker(), 0) {
        None => None,
        Some(i) => {
            let start = i + dur_marker().len();
            match find_from(header, dur_marker(), start) {
                Some(j) => Some(header.subrange(start, j)),
                None => Some(header.subrange(start, header.len() as int)),
            }
        },
    }
}

/// The duration text of a `server-timing` header value, which the client
/// then reads as a number of milliseconds.
pub fn server_timing_duration(header: &str) -> (r: Option<String>)
    ensures
        match r {
            Some(d) => duration_field(header@) == Some(d@),
            None => duration_field(header@) is None,
        },
{
    let marker = ";dur=";
    proof {
        reveal_strlit(";dur=");
        assert(marker@ =~= dur_marker());
    }
    let chars = chars_of(header);
    proof {
        lemma_find_from_found(chars@, dur_marker(), 0);
    }
    match find_pattern_from(&chars, marker, 0) {
        None => None,
        Some(i) => {
            let start = i + 5;
            proof {
                lemma_find_from_found(chars@, dur_marker(), start as int);
            }
            let end = match find_pattern_from(&chars, marker, start) {
                Some(j) => j,
                None => chars.len(),
            };
            Some(String::from_str(header.substring_char(start, end)))
        },
    }
}

/// Law: in a header made of any text `p` without the marker, then `;dur=`,
/// then any text `d` without the marker, the duration is exactly `d`,
/// whatever else `p` and `d` hold (commas, other metrics, `;` or `dur`).
pub proof fn law_duration_after_marker(p: Seq<char>, d: Seq<char>)
    requires
        forall|i: int| !occurs_at(p, dur_marker(), i),
        forall|i: int| !occurs_at(d, dur_marker(), i),
    ensures
        duration_field(p + dur_marker() + d) == Some(d),
{
    let m = dur_marker();
    let h = p + m + d;
    let n = p.len() as int;
    assert forall|i: int| 0 <= i < n implies !occurs_at(h, m, i) by {
        if occurs_at(h, m, i) {
            if i + 5 <= n {
                assert(h.subrange(i, i + 5) =~= p.subrange(i, i + 5));
                assert(occurs_at(p, m, i));
            } else {
                let k = n - i;
                assert(h.subrange(i, i + 5)[k] == h[n]);
                assert(h[n] == ';');
                assert(m[k] != ';');
            }
        }
    }
    lemma_find_from_skip(h, m, 0, n);
    assert(h.subrange(n, n + 5) =~= m);
    assert(occurs_at(h, m, n));
    assert(find_from(h, m, n) == Some(n));
    let start = n + 5;
    let last = if h.len() - 4 > start { h.len() - 4 } else { start };
    assert forall|j: int| start <= j < last implies !occurs_at(h, m, j) by {
        if occurs_at(h, m, j) {
            assert(h.subrange(j, j + 5) =~= d.subrange(j - start, j - start + 5));
            assert(occurs_at(d, m, j - start));
        }
    }
    lemma_find_from_skip(h, m, start, last);
    assert(find_from(h, m, last) is None);
    assert(h.subrange(start, h.len() as int) =~= d);
}

} // verus!
