use vstd::prelude::*;

use crate::chars::{chars_of, lemma_split_on_nonempty, split_chars, split_on, string_from, views_of};

verus! {

/// The line that ends a response: a single `.`.
pub open spec fn is_terminator(line: Seq<char>) -> bool {
    line == seq!['.']
}

/// `s` without one trailing carriage return, if it has one.
pub open spec fn strip_cr(s: Seq<char>) -> Seq<char> {
    if s.len() > 0 && s.last() == '\r' {
        s.drop_last()
    } else {
        s
    }
}

/// The lines of a received text as a buffered reader hands them out: split at each
/// line feed, with the line feed and one carriage return before it removed. A last
/// piece with no line feed after it is a line of its own unless it is empty.
pub open spec fn lines_of(text: Seq<char>) -> Seq<Seq<char>> {
    let pieces = split_on(text, '\n');
    let ended = pieces.drop_last().map_values(|p: Seq<char>| strip_cr(p));
    if pieces.last().len() == 0 {
        ended
    } else {
        ended.push(pieces.last())
    }
}

/// The lines before the first terminator line, or all of them if there is none.
pub open spec fn until_terminator(lines: Seq<Seq<char>>) -> Seq<Seq<char>>
    decreases lines.len(),
{
    if lines.len() == 0 || is_terminator(lines[0]) {
        Seq::empty()
    } else {
        seq![lines[0]] + until_terminator(lines.drop_first())
    }
}

/// A text line as its sender meant it: one leading `.` removed, if there is one.
pub open spec fn unescape(line: Seq<char>) -> Seq<char> {
    if line.len() > 0 && line[0] == '.' {
        line.drop_first()
    } else {
        line
    }
}

/// A response is cut at the first terminator line: what comes before it is kept
/// whole, and nothing from the terminator on is kept.
pub proof fn lemma_until_terminator(lines: Seq<Seq<char>>, k: int)
    requires
        0 <= k <= lines.len(),
        forall|j: int| 0 <= j < k ==> !is_terminator(#[trigger] lines[j]),
        k == lines.len() || is_terminator(lines[k]),
    ensures
        until_terminator(lines) == lines.take(k),
    decreases k,
{
    if k == 0 {
        assert(lines.take(0) =~= Seq::<Seq<char>>::empty());
    } else {
        let rest = lines.drop_first();
        assert forall|j: int| 0 <= j < k - 1 implies !is_terminator(#[trigger] rest[j]) by {
            assert(rest[j] == lines[j + 1]);
        }
        assert(!is_terminator(lines[0]));
        lemma_until_terminator(rest, k - 1);
        assert(lines.take(k) =~= seq![lines[0]] + rest.take(k - 1));
    }
}

/// Nothing at or after a terminator line is ever part of a framed response.
pub proof fn lemma_nothing_after_terminator(lines: Seq<Seq<char>>, t: int)
    requires
        0 <= t < lines.len(),
        is_terminator(lines[t]),
    ensures
        until_terminator(lines).len() <= t,
        until_terminator(lines) == lines.take(until_terminator(lines).len() as int),
        forall|i: int|
            0 <= i < until_terminator(lines).len() ==> !is_terminator(
                #[trigger] until_terminator(lines)[i],
            ),
    decreases t,
{
    if !is_terminator(lines[0]) {
        let rest = lines.drop_first();
        assert(rest[t - 1] == lines[t]);
        lemma_nothing_after_terminator(rest, t - 1);
        let u = until_terminator(rest);
        assert(lines.take(u.len() + 1 as int) =~= seq![lines[0]] + rest.take(u.len() as int));
        assert forall|i: int| 0 <= i < u.len() + 1 implies !is_terminator(
            #[trigger] until_terminator(lines)[i],
        ) by {
            if i > 0 {
                assert(until_terminator(lines)[i] == u[i - 1]);
            }
        }
    } else {
        assert(lines.take(0) =~= Seq::<Seq<char>>::empty());
    }
}

/// A response that simply stops, with no terminator line, is kept whole.
pub proof fn lemma_unterminated_response(lines: Seq<Seq<char>>)
    requires
        forall|j: int| 0 <= j < lines.len() ==> !is_terminator(#[trigger] lines[j]),
    ensures
        until_terminator(lines) == lines,
{
    lemma_until_terminator(lines, lines.len() as int);
    assert(lines.take(lines.len() as int) =~= lines);
}

/// Whether `line` is the terminator line.
pub fn is_terminator_line(line: &str) -> (r: bool)
    ensures
        r == is_terminator(line@),
{
    let cs = chars_of(line);
    if cs.len() == 1 && cs[0] == '.' {
        assert(line@ =~= seq!['.']);
        true
    } else {
        false
    }
}

/// `s` without one trailing carriage return.
pub fn strip_carriage_return(s: &str) -> (r: String)
    ensures
        r@ == strip_cr(s@),
{
    let cs = chars_of(s);
    let end: usize = if cs.len() > 0 && cs[cs.len() - 1] == '\r' { cs.len() - 1 } else { cs.len() };
    let r = string_from(&cs, 0, end);
    assert(r@ =~= strip_cr(s@));
    r
}

/// Removes the one leading `.` with which a text response escapes its lines.
pub fn unescape_line(line: &str) -> (r: String)
    ensures
        r@ == unescape(line@),
{
    let cs = chars_of(line);
    let from: usize = if cs.len() > 0 && cs[0] == '.' { 1 } else { 0 };
    let r = string_from(&cs, from, cs.len());
    assert(r@ =~= unescape(line@));
    r
}

/// The lines of a received response, up to its terminator line or its end.
pub fn response_lines(text: &str) -> (r: Vec<String>)
    ensures
        views_of(r@) == until_terminator(lines_of(text@)),
{
    let cs = chars_of(text);
    let pieces = split_chars(&cs, 0, '\n');
    let ghost lines = lines_of(text@);
    let ghost ps = split_on(text@, '\n');
    proof {
        assert(cs@.subrange(0, cs@.len() as int) =~= text@);
        lemma_split_on_nonempty(text@, '\n');
    }
    let n = pieces.len();
    let mut out: Vec<String> = Vec::new();
    let mut i: usize = 0;
    while i < n
        invariant
            n == pieces.len() >= 1,
            views_of(pieces@) == ps,
            ps == split_on(text@, '\n'),
            lines == lines_of(text@),
            i <= lines.len(),
            lines.len() == n - 1 || lines.len() == n,
            lines.len() == n <==> ps.last().len() != 0,
            forall|j: int| 0 <= j < n - 1 ==> #[trigger] lines[j] == strip_cr(ps[j]),
            lines.len() == n ==> lines[n - 1] == ps[n - 1],
            views_of(out@) == lines.take(i as int),
            forall|j: int| 0 <= j < i ==> !is_terminator(#[trigger] lines[j]),
        ensures
            i == lines.len() || is_terminator(lines[i as int]),
        decreases n - i,
    {
        assert(pieces@[i as int]@ == ps[i as int]);
        let line = if i + 1 < n {
            strip_carriage_return(pieces[i].as_str())
        } else if pieces[i].as_str().is_empty() {
            break;
        } else {
            pieces[i].clone()
        };
        assert(line@ == lines[i as int]);
        if is_terminator_line(line.as_str()) {
            break;
        }
        let ghost before = out@;
        out.push(line);
        assert(views_of(out@) =~= views_of(before).push(line@));
        assert(lines.take(i + 1) =~= lines.take(i as int).push(lines[i as int]));
        i = i + 1;
    }
    proof {
        lemma_until_terminator(lines, i as int);
    }
    out
}

/// The lines of a received text response, up to its terminator, each unescaped.
pub fn text_response_lines(text: &str) -> (r: Vec<String>)
    ensures
        views_of(r@) == until_terminator(lines_of(text@)).map_values(|l: Seq<char>| unescape(l)),
{
    let raw = response_lines(text);
    let ghost u = until_terminator(lines_of(text@));
    let mut out: Vec<String> = Vec::new();
    let mut i: usize = 0;
    while i < raw.len()
        invariant
            i <= raw.len(),
            views_of(raw@) == u,
            views_of(out@) == u.take(i as int).map_values(|l: Seq<char>| unescape(l)),
        decreases raw.len() - i,
    {
        assert(raw@[i as int]@ == u[i as int]);
        let line = unescape_line(raw[i].as_str());
        let ghost before = out@;
        out.push(line);
        assert(views_of(out@) =~= views_of(before).push(line@));
        assert(u.take(i + 1).map_values(|l: Seq<char>| unescape(l)) =~= u.take(i as int).map_values(
            |l: Seq<char>| unescape(l),
        ).push(unescape(u[i as int])));
        i = i + 1;
    }
    assert(u.take(u.len() as int) =~= u);
    out
}

} // verus!
