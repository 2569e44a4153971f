//! Small verified helpers on strings, stated over their character sequences.

use vstd::prelude::*;
use vstd::string::*;

verus! {

/// The character sequences of a list of strings, in order.
pub open spec fn views(v: Seq<String>) -> Seq<Seq<char>> {
    Seq::new(v.len(), |i: int| v[i]@)
}

/// The view of an optional string.
pub open spec fn option_view(s: Option<String>) -> Option<Seq<char>> {
    match s {
        Some(t) => Some(t@),
        None => None,
    }
}

/// The characters of `s`, in order.
pub fn chars_of(s: &str) -> (v: Vec<char>)
    ensures
        v@ == s@,
{
    let mut v: Vec<char> = Vec::new();
    for c in it: s.chars()
        invariant
            v@ == it.seq().take(it.index() as int),
            it.seq() == s@,
    {
        v.push(c);
    }
    v
}

/// Whether two string slices hold the same characters.
pub fn same_text(a: &str, b: &str) -> (r: bool)
    ensures
        r == (a@ == b@),
{
    let x = String::from_str(a);
    let y = String::from_str(b);
    x == y
}

/// Whether `s` begins with `prefix`.
pub fn starts_with(s: &str, prefix: &str) -> (r: bool)
    ensures
        r == prefix@.is_prefix_of(s@),
{
    let cs = chars_of(s);
    let ps = chars_of(prefix);
    if cs.len() < ps.len() {
        return false;
    }
    let mut i: usize = 0;
    while i < ps.len()
        invariant
            i <= ps.len() <= cs.len(),
            cs@ == s@,
            ps@ == prefix@,
            forall|j: int| 0 <= j < i ==> cs@[j] == ps@[j],
        decreases ps.len() - i,
    {
        if cs[i] != ps[i] {
            assert(cs@.subrange(0, ps@.len() as int)[i as int] == cs@[i as int]);
            return false;
        }
        i += 1;
    }
    assert(ps@ =~= cs@.subrange(0, ps@.len() as int));
    true
}

/// Whether `s` ends with `suffix`.
pub fn ends_with(s: &str, suffix: &str) -> (r: bool)
    ensures
        r == suffix@.is_suffix_of(s@),
{
    let cs = chars_of(s);
    let ps = chars_of(suffix);
    if cs.len() < ps.len() {
        return false;
    }
    let off: usize = cs.len() - ps.len();
    let mut i: usize = 0;
    while i < ps.len()
        invariant
            i <= ps.len() <= cs.len(),
            cs@ == s@,
            ps@ == suffix@,
            off == cs.len() - ps.len(),
            forall|j: int| 0 <= j < i ==> cs@[off + j] == ps@[j],
        decreases ps.len() - i,
    {
        if cs[off + i] != ps[i] {
            assert(cs@.subrange(cs@.len() - ps@.len(), cs@.len() as int)[i as int] == cs@[off + i]);
            return false;
        }
        i += 1;
    }
    assert(ps@ =~= cs@.subrange(off as int, cs@.len() as int));
    true
}

/// Whether the list holds a string with the characters of `s`.
pub fn contains_text(list: &Vec<String>, s: &String) -> (r: bool)
    ensures
        r == views(list@).contains(s@),
{
    let mut i: usize = 0;
    while i < list.len()
        invariant
            i <= list.len(),
            forall|j: int| 0 <= j < i ==> list@[j]@ != s@,
        decreases list.len() - i,
    {
        if list[i] == *s {
            assert(views(list@)[i as int] == s@);
            return true;
        }
        i += 1;
    }
    assert forall|j: int| 0 <= j < views(list@).len() implies views(list@)[j] != s@ by {
        assert(views(list@)[j] == list@[j]@);
    }
    false
}

/// A copy of a list of strings.
pub fn clone_texts(list: &Vec<String>) -> (out: Vec<String>)
    ensures
        out@ == list@,
{
    let mut out: Vec<String> = Vec::new();
    let mut i: usize = 0;
    while i < list.len()
        invariant
            i <= list.len(),
            out@ == list@.take(i as int),
        decreases list.len() - i,
    {
        out.push(list[i].clone());
        i += 1;
    }
    out
}

/// Whether a line that starts at `a` ends at `i`: position `i` holds the
/// first line feed at or after `a`.
pub open spec fn is_line_end(s: Seq<char>, a: int, i: int) -> bool {
    &&& a <= i < s.len()
    &&& s[i] == '\n'
    &&& forall|j: int| a <= j < i ==> s[j] != '\n'
}

/// `line` without the carriage return that it may end with.
pub open spec fn without_carriage_return(line: Seq<char>) -> Seq<char> {
    if line.len() > 0 && line.last() == '\r' {
        line.drop_last()
    } else {
        line
    }
}

/// The lines of `s` from offset `a` on. A line ends with a line feed, or with
/// a carriage return and a line feed, neither of which belongs to the line;
/// the last line needs no line end, and nothing follows a final line end.
pub open spec fn lines_from(s: Seq<char>, a: int) -> Seq<Seq<char>>
    decreases s.len() - a,
{
    if a < 0 || a >= s.len() {
        Seq::empty()
    } else if exists|i: int| is_line_end(s, a, i) {
        let i = choose|i: int| is_line_end(s, a, i);
        seq![without_carriage_return(s.subrange(a, i))] + lines_from(s, i + 1)
    } else {
        seq![s.subrange(a, s.len() as int)]
    }
}

/// The lines of `s`.
pub open spec fn lines_of(s: Seq<char>) -> Seq<Seq<char>> {
    lines_from(s, 0)
}

/// The texts of `parts`, with `sep` between each two neighbours.
pub open spec fn joined(parts: Seq<Seq<char>>, sep: Seq<char>) -> Seq<char>
    decreases parts.len(),
{
    if parts.len() == 0 {
        Seq::empty()
    } else if parts.len() == 1 {
        parts[0]
    } else {
        joined(parts.drop_last(), sep) + sep + parts.last()
    }
}

/// The lines of `text`, in order.
pub fn split_lines(text: &str) -> (lines: Vec<String>)
    ensures
        views(lines@) == lines_of(text@),
{
    let cs = chars_of(text);
    let n = cs.len();
    let mut lines: Vec<String> = Vec::new();
    let mut a: usize = 0;
    let mut i: usize = 0;
    assert(views(lines@) + lines_from(text@, 0) =~= lines_of(text@));
    while i < n
        invariant
            a <= i <= n,
            n == cs.len(),
            cs@ == text@,
            forall|j: int| a <= j < i ==> cs@[j] != '\n',
            views(lines@) + lines_from(text@, a as int) == lines_of(text@),
        decreases n - i,
    {
        if cs[i] == '\n' {
            assert(is_line_end(text@, a as int, i as int));
            assert forall|k: int| is_line_end(text@, a as int, k) implies k == i by {
                if k < i {
                    assert(cs@[k] != '\n');
                }
            }
            let end: usize = if i > a && cs[i - 1] == '\r' {
                (i - 1) as usize
            } else {
                i
            };
            let line = String::from_str(text.substring_char(a, end));
            proof {
                let raw = text@.subrange(a as int, i as int);
                assert(line@ =~= without_carriage_return(raw));
                let before = views(lines@);
                assert(views(lines@.push(line)) =~= before.push(line@));
                assert(before.push(line@) + lines_from(text@, i + 1) =~= before + (seq![line@] + lines_from(
                    text@,
                    i + 1,
                )));
            }
            lines.push(line);
            a = i + 1;
        }
        i += 1;
    }
    if a < n {
        assert(!exists|k: int| is_line_end(text@, a as int, k));
        let line = String::from_str(text.substring_char(a, n));
        proof {
            let before = views(lines@);
            assert(views(lines@.push(line)) =~= before.push(line@));
            assert(before.push(line@) =~= before + seq![line@]);
        }
        lines.push(line);
    } else {
        assert(views(lines@) + Seq::<Seq<char>>::empty() =~= views(lines@));
    }
    lines
}

/// The texts of `parts`, with `sep` between each two neighbours.
pub fn join_texts(parts: &Vec<String>, sep: &str) -> (out: String)
    ensures
        out@ == joined(views(parts@), sep@),
{
    let mut out = String::new();
    let mut i: usize = 0;
    assert(views(parts@).take(0) =~= Seq::<Seq<char>>::empty());
    while i < parts.len()
        invariant
            i <= parts.len(),
            out@ == joined(views(parts@).take(i as int), sep@),
        decreases parts.len() - i,
    {
        proof {
            let next = views(parts@).take(i + 1);
            assert(next.drop_last() =~= views(parts@).take(i as int));
            assert(next.last() == parts@[i as int]@);
            if i == 0 {
                assert(next[0] == parts@[0]@);
            }
        }
        if i > 0 {
            out.append(sep);
        }
        out.append(parts[i].as_str());
        proof {
            if i == 0 {
                assert(out@ =~= parts@[0]@);
            }
        }
        i += 1;
    }
    assert(views(parts@).take(i as int) =~= views(parts@));
    out
}

/// Whether `needle` stands in `text` at offset `i`.
pub open spec fn occurs_at(text: Seq<char>, needle: Seq<char>, i: int) -> bool {
    0 <= i && i + needle.len() <= text.len() && text.subrange(i, i + needle.len()) == needle
}

/// Whether `needle` stands somewhere in `text`.
pub open spec fn occurs_in(text: Seq<char>, needle: Seq<char>) -> bool {
    exists|i: int| occurs_at(text, needle, i)
}

/// What stands in a text still stands in it when more text follows.
pub proof fn lemma_occurs_in_longer(text: Seq<char>, more: Seq<char>, needle: Seq<char>)
    requires
        occurs_in(text, needle),
    ensures
        occurs_in(text + more, needle),
{
    let i = choose|i: int| occurs_at(text, needle, i);
    assert((text + more).subrange(i, i + needle.len()) =~= text.subrange(i, i + needle.len()));
    assert(occurs_at(text + more, needle, i));
}

/// What stands in a text still stands in it behind more text.
pub proof fn lemma_occurs_behind(front: Seq<char>, text: Seq<char>, needle: Seq<char>)
    requires
        occurs_in(text, needle),
    ensures
        occurs_in(front + text, needle),
{
    let i = choose|i: int| occurs_at(text, needle, i);
    assert((front + text).subrange(front.len() + i, front.len() + i + needle.len()) =~= text.subrange(
        i,
        i + needle.len(),
    ));
    assert(occurs_at(front + text, needle, front.len() + i));
}

/// A text that ends with `needle` holds it.
pub proof fn lemma_occurs_at_end(front: Seq<char>, needle: Seq<char>)
    ensures
        occurs_in(front + needle, needle),
{
    assert((front + needle).subrange(front.len() as int, (front.len() + needle.len()) as int) =~= needle);
    assert(occurs_at(front + needle, needle, front.len() as int));
}

/// Whether `needle` stands in `text` at offset `i`.
fn matches_at(text: &Vec<char>, needle: &Vec<char>, i: usize) -> (r: bool)
    requires
        i + needle@.len() <= text@.len(),
    ensures
        r == occurs_at(text@, needle@, i as int),
{
    let mut j: usize = 0;
    while j < needle.len()
        invariant
            j <= needle.len(),
            i + needle.len() <= text.len(),
            forall|k: int| 0 <= k < j ==> text@[i + k] == needle@[k],
        decreases needle.len() - j,
    {
        if text[i + j] != needle[j] {
            assert(text@.subrange(i as int, i + needle@.len())[j as int] == text@[i + j]);
            return false;
        }
        j += 1;
    }
    assert(text@.subrange(i as int, i + needle@.len()) =~= needle@);
    true
}

/// Whether `needle` stands somewhere in `text`.
pub fn contains_subtext(text: &str, needle: &str) -> (r: bool)
    ensures
        r == occurs_in(text@, needle@),
{
    let ts = chars_of(text);
    let ns = chars_of(needle);
    if ns.len() > ts.len() {
        return false;
    }
    let last: usize = ts.len() - ns.len();
    let mut i: usize = 0;
    while i < last
        invariant
            i <= last,
            last == ts.len() - ns.len(),
            ts@ == text@,
            ns@ == needle@,
            forall|k: int| 0 <= k < i ==> !occurs_at(text@, needle@, k),
        decreases last - i,
    {
        if matches_at(&ts, &ns, i) {
            return true;
        }
        i += 1;
    }
    matches_at(&ts, &ns, last)
}

/// Whether position `i` of `text` holds its last `c`.
pub open spec fn is_last_occurrence(text: Seq<char>, c: char, i: int) -> bool {
    &&& 0 <= i < text.len()
    &&& text[i] == c
    &&& forall|j: int| i < j < text.len() ==> text[j] != c
}

/// `text` up to its last `c`, without that character; all of `text` where
/// it holds no `c`.
pub open spec fn before_last(text: Seq<char>, c: char) -> Seq<char> {
    if exists|i: int| is_last_occurrence(text, c, i) {
        text.subrange(0, choose|i: int| is_last_occurrence(text, c, i))
    } else {
        text
    }
}

/// `text` up to its last `c`, without that character; all of `text` where
/// it holds no `c`.
pub fn cut_at_last(text: &str, c: char) -> (out: String)
    ensures
        out@ == before_last(text@, c),
{
    let cs = chars_of(text);
    let n = cs.len();
    let mut j: usize = n;
    while j > 0
        invariant
            j <= n,
            n == cs.len(),
            cs@ == text@,
            forall|k: int| j <= k < n ==> cs@[k] != c,
        decreases j,
    {
        j -= 1;
        if cs[j] == c {
            assert(is_last_occurrence(text@, c, j as int));
            assert forall|i: int| is_last_occurrence(text@, c, i) implies i == j by {
                if i < j {
                    assert(text@[j as int] == c);
                } else if i > j {
                    assert(cs@[i] != c);
                }
            }
            return String::from_str(text.substring_char(0, j));
        }
    }
    assert forall|i: int| !is_last_occurrence(text@, c, i) by {
        if is_last_occurrence(text@, c, i) {
            assert(cs@[i] != c);
        }
    }
    String::from_str(text)
}

/// `text` with `to` in place of each `from`.
pub open spec fn with_replaced(text: Seq<char>, from: char, to: Seq<char>) -> Seq<char>
    decreases text.len(),
{
    if text.len() == 0 {
        Seq::empty()
    } else if text.last() == from {
        with_replaced(text.drop_last(), from, to) + to
    } else {
        with_replaced(text.drop_last(), from, to).push(text.last())
    }
}

/// `text` with `to` in place of each `from`.
pub fn replace_each(text: &str, from: char, to: &str) -> (out: String)
    ensures
        out@ == with_replaced(text@, from, to@),
{
    let cs = chars_of(text);
    let n = cs.len();
    let mut out = String::new();
    let mut a: usize = 0;
    let mut i: usize = 0;
    assert(text@.take(0) =~= Seq::<char>::empty());
    assert(out@ + text@.subrange(0, 0) =~= Seq::<char>::empty());
    while i < n
        invariant
            a <= i <= n,
            n == cs.len(),
            cs@ == text@,
            out@ + text@.subrange(a as int, i as int) == with_replaced(text@.take(i as int), from, to@),
        decreases n - i,
    {
        proof {
            assert(text@.take(i + 1).drop_last() =~= text@.take(i as int));
            assert(text@.take(i + 1).last() == cs@[i as int]);
        }
        if cs[i] == from {
            out.append(text.substring_char(a, i));
            out.append(to);
            a = i + 1;
            assert(out@ + text@.subrange(a as int, i + 1) =~= with_replaced(text@.take(i + 1), from, to@));
        } else {
            assert(out@ + text@.subrange(a as int, i + 1) =~= (out@ + text@.subrange(a as int, i as int)).push(
                cs@[i as int],
            ));
        }
        i += 1;
    }
    out.append(text.substring_char(a, n));
    assert(text@.take(n as int) =~= text@);
    out
}

} // verus!
