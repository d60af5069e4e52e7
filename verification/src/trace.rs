//! The `/cdn-cgi/trace` response: `key=value` lines, of which the client
//! keeps the address it was seen from (`ip`), its country (`loc`) and the
//! data centre that answered (`colo`).
use vstd::prelude::*;
use crate::text::{chars_of, range_equals, split_char};

verus! {

/// What the trace endpoint reports about the connection.
#[derive(Debug)]
pub struct CfCdnCgiTrace {
    pub ip: String,
    pub loc: String,
    pub colo: String,
}

/// The three fields of a trace, as character sequences.
pub struct TraceView {
    pub ip: Seq<char>,
    pub loc: Seq<char>,
    pub colo: Seq<char>,
}

impl View for CfCdnCgiTrace {
    type V = TraceView;

    open spec fn view(&self) -> TraceView {
        TraceView { ip: self.ip@, loc: self.loc@, colo: self.colo@ }
    }
}

/// A trace with every field empty, where parsing starts.
pub open spec fn empty_trace() -> TraceView {
    TraceView { ip: Seq::empty(), loc: Seq::empty(), colo: Seq::empty() }
}

/// The effect of one line: a line that `=` splits into exactly two parts
/// sets the field its first part names to its second part; any other line
/// changes nothing.
pub open spec fn apply_trace_line(t: TraceView, line: Seq<char>) -> TraceView {
    let parts = split_char(line, '=');
    if parts.len() == 2 {
        if parts[0] == seq!['i', 'p'] {
            TraceView { ip: parts[1], ..t }
        } else if parts[0] == seq!['l', 'o', 'c'] {
            TraceView { loc: parts[1], ..t }
        } else if parts[0] == seq!['c', 'o', 'l', 'o'] {
            TraceView { colo: parts[1], ..t }
        } else {
            t
        }
    } else {
        t
    }
}

/// The lines applied in order, so that a later line overrides an earlier one.
pub open spec fn apply_trace_lines(lines: Seq<Seq<char>>) -> TraceView
    decreases lines.len(),
{
    if lines.len() == 0 {
        empty_trace()
    } else {
        apply_trace_line(apply_trace_lines(lines.drop_last()), lines.last())
    }
}

/// The trace that a response body describes: its `\n`-separated lines applied in order.
pub open spec fn trace_of(body: Seq<char>) -> TraceView {
    apply_trace_lines(split_char(body, '\n'))
}

/// Applies the line `body[start..end]` to `t`.
fn apply_line(t: &mut CfCdnCgiTrace, body: &str, chars: &Vec<char>, start: usize, end: usize)
    requires
        chars@ == body@,
        start <= end <= chars@.len(),
    ensures
        final(t)@ == apply_trace_line(old(t)@, chars@.subrange(start as int, end as int)),
{
    let ghost line = chars@.subrange(start as int, end as int);
    // `pieces` counts the pieces read so far, up to three (three standing for
    // "three or more"); `piece_start` is where the piece being read begins
    // and `first_end` is where the first piece ended.
    let mut pieces: usize = 1;
    let mut piece_start: usize = start;
    let mut first_end: usize = end;
    let mut j: usize = start;
    assert(line.take(0) =~= Seq::<char>::empty());
    while j < end
        invariant
            start <= piece_start <= j <= end <= chars@.len(),
            line == chars@.subrange(start as int, end as int),
            1 <= pieces <= 3,
            pieces < 3 ==> split_char(line.take(j - start), '=').len() == pieces,
            pieces == 3 ==> split_char(line.take(j - start), '=').len() >= 3,
            split_char(line.take(j - start), '=').len() >= 1,
            split_char(line.take(j - start), '=').last()
                == chars@.subrange(piece_start as int, j as int),
            pieces == 1 ==> piece_start == start,
            pieces >= 2 ==> split_char(line.take(j - start), '=')[0]
                == chars@.subrange(start as int, first_end as int),
            pieces == 2 ==> piece_start == first_end + 1,
            start <= first_end <= end,
        decreases end - j,
    {
        let ghost before = split_char(line.take(j - start), '=');
        assert(line.take(j + 1 - start).drop_last() =~= line.take(j - start));
        assert(line.take(j + 1 - start).last() == chars@[j as int]);
        if chars[j] == '=' {
            if pieces == 1 {
                first_end = j;
            }
            if pieces < 3 {
                pieces = pieces + 1;
            }
            piece_start = j + 1;
            assert(chars@.subrange(piece_start as int, j + 1) =~= Seq::<char>::empty());
        } else {
            assert(chars@.subrange(piece_start as int, j + 1)
                =~= chars@.subrange(piece_start as int, j as int).push(chars@[j as int]));
        }
        j = j + 1;
    }
    assert(line.take(end - start) =~= line);
    let ghost parts = split_char(line, '=');
    proof {
        reveal_strlit("ip");
        reveal_strlit("loc");
        reveal_strlit("colo");
        assert("ip"@ =~= seq!['i', 'p']);
        assert("loc"@ =~= seq!['l', 'o', 'c']);
        assert("colo"@ =~= seq!['c', 'o', 'l', 'o']);
    }
    if pieces == 2 {
        assert(parts[0] == chars@.subrange(start as int, first_end as int));
        assert(parts[1] == chars@.subrange(first_end + 1, end as int));
        let value = String::from_str(body.substring_char(first_end + 1, end));
        if range_equals(chars, start, first_end, "ip") {
            t.ip = value;
        } else if range_equals(chars, start, first_end, "loc") {
            t.loc = value;
        } else if range_equals(chars, start, first_end, "colo") {
            t.colo = value;
        }
    }
}

/// Reads a `/cdn-cgi/trace` response body.
///
/// The body is split on `\n`; each line that `=` splits into exactly two
/// parts, `ip`, `loc` or `colo` and a value, sets that field, a later line
/// overriding an earlier one. Fields that no line sets are empty.
pub fn parse_cdn_cgi_trace(body: &str) -> (t: CfCdnCgiTrace)
    ensures
        t@ == trace_of(body@),
{
    let chars = chars_of(body);
    let n = chars.len();
    let mut t = CfCdnCgiTrace { ip: String::new(), loc: String::new(), colo: String::new() };
    let mut line_start: usize = 0;
    let mut i: usize = 0;
    assert(chars@.take(0) =~= Seq::<char>::empty());
    while i < n
        invariant
            n == chars@.len(),
            chars@ == body@,
            line_start <= i <= n,
            split_char(chars@.take(i as int), '\n').len() >= 1,
            t@ == apply_trace_lines(split_char(chars@.take(i as int), '\n').drop_last()),
            split_char(chars@.take(i as int), '\n').last()
                == chars@.subrange(line_start as int, i as int),
        decreases n - i,
    {
        let ghost lines = split_char(chars@.take(i as int), '\n');
        assert(chars@.take(i + 1).drop_last() =~= chars@.take(i as int));
        assert(chars@.take(i + 1).last() == chars@[i as int]);
        if chars[i] == '\n' {
            apply_line(&mut t, body, &chars, line_start, i);
            let ghost next = split_char(chars@.take(i + 1), '\n');
            assert(next =~= lines.push(Seq::empty()));
            assert(next.drop_last() =~= lines);
            assert(lines =~= lines.drop_last().push(lines.last()));
            line_start = i + 1;
            assert(chars@.subrange(line_start as int, i + 1) =~= Seq::<char>::empty());
        } else {
            let ghost next = split_char(chars@.take(i + 1), '\n');
            assert(next.drop_last() =~= lines.drop_last());
            assert(chars@.subrange(line_start as int, i + 1)
                =~= chars@.subrange(line_start as int, i as int).push(chars@[i as int]));
        }
        i = i + 1;
    }
    apply_line(&mut t, body, &chars, line_start, n);
    proof {
        let lines = split_char(chars@.take(n as int), '\n');
        assert(chars@.take(n as int) =~= chars@);
        assert(lines =~= lines.drop_last().push(lines.last()));
    }
    t
}

/// Splitting text that ends in a separator followed by a separator-free
/// piece yields the pieces of the text before, then that piece.
proof fn lemma_split_char_append_piece(a: Seq<char>, sep: char, piece: Seq<char>)
    requires
        !piece.contains(sep),
    ensures
        split_char(a.push(sep) + piece, sep) == split_char(a, sep).push(piece),
    decreases piece.len(),
{
    let s = a.push(sep) + piece;
    if piece.len() == 0 {
        assert(s =~= a.push(sep));
        assert(s.drop_last() =~= a);
        assert(s.last() == sep);
        assert(piece =~= Seq::<char>::empty());
    } else {
        let init = piece.drop_last();
        assert(!init.contains(sep)) by {
            if init.contains(sep) {
                let k = choose|k: int| 0 <= k < init.len() && init[k] == sep;
                assert(piece[k] == sep);
            }
        }
        lemma_split_char_append_piece(a, sep, init);
        assert(s.drop_last() =~= a.push(sep) + init);
        assert(s.last() == piece.last());
        assert(piece.last() == piece[piece.len() - 1]);
        assert(init.push(piece.last()) =~= piece);
        assert(split_char(s, sep) =~= split_char(a, sep).push(piece));
    }
}

/// Law: a line added at the end of a body acts on what the body already
/// says, so a later line overrides an earlier one and a line that is not
/// `key=value` with a known key changes nothing.
pub proof fn law_later_line_overrides(body: Seq<char>, line: Seq<char>)
    requires
        !line.contains('\n'),
    ensures
        trace_of(body.push('\n') + line) == apply_trace_line(trace_of(body), line),
{
    lemma_split_char_append_piece(body, '\n', line);
    let lines = split_char(body, '\n').push(line);
    assert(lines.drop_last() =~= split_char(body, '\n'));
}

/// Text free of the separator splits into itself alone.
proof fn lemma_split_char_no_sep(a: Seq<char>, sep: char)
    requires
        !a.contains(sep),
    ensures
        split_char(a, sep) == seq![a],
    decreases a.len(),
{
    if a.len() > 0 {
        let init = a.drop_last();
        assert(!init.contains(sep)) by {
            if init.contains(sep) {
                let k = choose|k: int| 0 <= k < init.len() && init[k] == sep;
                assert(a[k] == sep);
            }
        }
        lemma_split_char_no_sep(init, sep);
        assert(a.last() == a[a.len() - 1]);
        assert(init.push(a.last()) =~= a);
        assert(split_char(a, sep) =~= seq![a]);
    } else {
        assert(a =~= Seq::<char>::empty());
    }
}

/// The line `key=value`, where neither holds `=` or a newline, splits on
/// newlines into itself and on `=` into its key and its value.
proof fn lemma_key_value_line(key: Seq<char>, v: Seq<char>)
    requires
        !key.contains('='),
        !key.contains('\n'),
        !v.contains('='),
        !v.contains('\n'),
    ensures
        !(key.push('=') + v).contains('\n'),
        split_char(key.push('=') + v, '\n') == seq![key.push('=') + v],
        split_char(key.push('=') + v, '=') == seq![key, v],
{
    let line = key.push('=') + v;
    assert(!line.contains('\n')) by {
        if line.contains('\n') {
            let k = choose|k: int| 0 <= k < line.len() && line[k] == '\n';
            if k < key.len() {
                assert(key[k] == '\n');
            } else if k > key.len() {
                assert(v[k - key.len() - 1] == '\n');
            }
        }
    }
    lemma_split_char_no_sep(line, '\n');
    lemma_split_char_append_piece(key, '=', v);
    lemma_split_char_no_sep(key, '=');
}

/// Law: the value a trace line gives a field is the whole text after its
/// `=`, whatever that text holds besides `=` and newlines and however long
/// it is; on its own the line sets that field, and after other lines it sets
/// that field and leaves the other two as they were.
pub proof fn law_trace_field_is_whole_value(body: Seq<char>, v: Seq<char>)
    requires
        !v.contains('='),
        !v.contains('\n'),
    ensures
        trace_of(seq!['i', 'p', '='] + v).ip == v,
        trace_of(seq!['l', 'o', 'c', '='] + v).loc == v,
        trace_of(seq!['c', 'o', 'l', 'o', '='] + v).colo == v,
        trace_of(body.push('\n') + (seq!['i', 'p', '='] + v)) == (TraceView { ip: v, ..trace_of(body) }),
        trace_of(body.push('\n') + (seq!['l', 'o', 'c', '='] + v)) == (TraceView {
            loc: v,
            ..trace_of(body)
        }),
        trace_of(body.push('\n') + (seq!['c', 'o', 'l', 'o', '='] + v)) == (TraceView {
            colo: v,
            ..trace_of(body)
        }),
{
    let ip = seq!['i', 'p'];
    let loc = seq!['l', 'o', 'c'];
    let colo = seq!['c', 'o', 'l', 'o'];
    assert(ip.push('=') =~= seq!['i', 'p', '=']);
    assert(loc.push('=') =~= seq!['l', 'o', 'c', '=']);
    assert(colo.push('=') =~= seq!['c', 'o', 'l', 'o', '=']);
    assert(!ip.contains('=') && !ip.contains('\n')) by {
        assert(ip[0] == 'i' && ip[1] == 'p');
    }
    assert(!loc.contains('=') && !loc.contains('\n')) by {
        assert(loc[0] == 'l' && loc[1] == 'o' && loc[2] == 'c');
    }
    assert(!colo.contains('=') && !colo.contains('\n')) by {
        assert(colo[0] == 'c' && colo[1] == 'o' && colo[2] == 'l' && colo[3] == 'o');
    }
    assert(ip != loc && ip != colo && loc != colo) by {
        assert(ip.len() != loc.len() && ip.len() != colo.len() && loc.len() != colo.len());
    }
    lemma_key_value_line(ip, v);
    lemma_key_value_line(loc, v);
    lemma_key_value_line(colo, v);
    let lines_ip = seq![ip.push('=') + v];
    let lines_loc = seq![loc.push('=') + v];
    let lines_colo = seq![colo.push('=') + v];
    assert(lines_ip.drop_last() =~= Seq::<Seq<char>>::empty());
    assert(lines_loc.drop_last() =~= Seq::<Seq<char>>::empty());
    assert(lines_colo.drop_last() =~= Seq::<Seq<char>>::empty());
    assert(seq![ip, v][0] == ip && seq![ip, v][1] == v);
    assert(seq![loc, v][0] == loc && seq![loc, v][1] == v);
    assert(seq![colo, v][0] == colo && seq![colo, v][1] == v);
    law_later_line_overrides(body, ip.push('=') + v);
    law_later_line_overrides(body, loc.push('=') + v);
    law_later_line_overrides(body, colo.push('=') + v);
}

} // verus!
