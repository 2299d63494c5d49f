//! The head of a request written out and read back: what is written as a
//! request line and header lines is what the grammar of the head reads.

use crate::request::{
    head_of, headers_from, line_break, line_end, request_method, request_path, with_header_line,
    HeadModel,
};
use crate::text::{find_char, is_white_space, lowercase, skip_white, skip_word, trim_back, trimmed};
use vstd::prelude::*;

verus! {

/// The end of a line: carriage return and line feed.
pub open spec fn line_ending() -> Seq<char> {
    seq!['\r', '\n']
}

/// What follows the path in a request line: a space, the version, and the
/// end of the line.
pub open spec fn version_tail() -> Seq<char> {
    seq![' ', 'H', 'T', 'T', 'P', '/', '1', '.', '1', '\r', '\n']
}

/// The request line for `method` and `path`.
pub open spec fn request_line(method: Seq<char>, path: Seq<char>) -> Seq<char> {
    method + seq![' '] + path + version_tail()
}

/// The header line for `name` and `value`.
pub open spec fn field_text(name: Seq<char>, value: Seq<char>) -> Seq<char> {
    name + seq![':', ' '] + value + line_ending()
}

/// The header lines for `fields`, in their order.
pub open spec fn fields_text(fields: Seq<(Seq<char>, Seq<char>)>) -> Seq<char>
    decreases fields.len(),
{
    if fields.len() == 0 {
        Seq::empty()
    } else {
        field_text(fields[0].0, fields[0].1) + fields_text(fields.drop_first())
    }
}

/// The head of a request written out: the request line, the header lines,
/// and the empty line.
pub open spec fn head_text(
    method: Seq<char>,
    path: Seq<char>,
    fields: Seq<(Seq<char>, Seq<char>)>,
) -> Seq<char> {
    request_line(method, path) + fields_text(fields) + line_ending()
}

/// The text `s` without the white space at both ends.
pub open spec fn trimmed_all(s: Seq<char>) -> Seq<char> {
    trimmed(s, 0, s.len() as int)
}

/// The headers once `fields` are set, one after the other, starting from
/// `headers`: each name counts trimmed and in lower case, each value trimmed,
/// and a later field replaces an earlier one of its name.
pub open spec fn with_fields(
    headers: Map<Seq<char>, Seq<char>>,
    fields: Seq<(Seq<char>, Seq<char>)>,
) -> Map<Seq<char>, Seq<char>>
    decreases fields.len(),
{
    if fields.len() == 0 {
        headers
    } else {
        with_fields(
            headers.insert(lowercase(trimmed_all(fields[0].0)), trimmed_all(fields[0].1)),
            fields.drop_first(),
        )
    }
}

/// True when `word` can stand in a request line: it is not empty and holds no
/// white space.
pub open spec fn is_word(word: Seq<char>) -> bool {
    word.len() > 0 && forall|i: int| 0 <= i < word.len() ==> !is_white_space(#[trigger] word[i])
}

/// True when `name` and `value` can stand in a header line: the name holds
/// neither a colon nor a line feed, the value no line feed.
pub open spec fn is_field(name: Seq<char>, value: Seq<char>) -> bool {
    &&& forall|i: int| 0 <= i < name.len() ==> #[trigger] name[i] != ':' && name[i] != '\n'
    &&& forall|i: int| 0 <= i < value.len() ==> #[trigger] value[i] != '\n'
}

/// True when each of `fields` can stand in a header line.
pub open spec fn are_fields(fields: Seq<(Seq<char>, Seq<char>)>) -> bool {
    forall|i: int| 0 <= i < fields.len() ==> is_field((#[trigger] fields[i]).0, fields[i].1)
}

/// Where a character stands first in a window.
pub proof fn lemma_find_char_is(s: Seq<char>, c: char, lo: int, hi: int, at: int)
    requires
        lo <= at <= hi,
        at < hi ==> s[at] == c,
        forall|i: int| lo <= i < at ==> s[i] != c,
    ensures
        find_char(s, c, lo, hi) == at,
    decreases at - lo,
{
    if lo < at {
        lemma_find_char_is(s, c, lo + 1, hi, at);
    }
}

/// Where the white space at the start of a window ends.
pub proof fn lemma_skip_white_is(s: Seq<char>, lo: int, hi: int, at: int)
    requires
        lo <= at <= hi,
        at < hi ==> !is_white_space(s[at]),
        forall|i: int| lo <= i < at ==> is_white_space(s[i]),
    ensures
        skip_white(s, lo, hi) == at,
    decreases at - lo,
{
    if lo < at {
        lemma_skip_white_is(s, lo + 1, hi, at);
    }
}

/// Where the word at the start of a window ends.
pub proof fn lemma_skip_word_is(s: Seq<char>, lo: int, hi: int, at: int)
    requires
        lo <= at <= hi,
        at < hi ==> is_white_space(s[at]),
        forall|i: int| lo <= i < at ==> !is_white_space(s[i]),
    ensures
        skip_word(s, lo, hi) == at,
    decreases at - lo,
{
    if lo < at {
        lemma_skip_word_is(s, lo + 1, hi, at);
    }
}

/// Where the white space at the end of a window begins.
pub proof fn lemma_trim_back_is(s: Seq<char>, lo: int, hi: int, at: int)
    requires
        lo <= at <= hi,
        lo < at ==> !is_white_space(s[at - 1]),
        forall|i: int| at <= i < hi ==> is_white_space(s[i]),
    ensures
        trim_back(s, lo, hi) == at,
    decreases hi - at,
{
    if at < hi {
        lemma_trim_back_is(s, lo, hi - 1, at);
    }
}

/// Trimming looks at the window alone: a window of one text and a window of
/// another that hold the same characters are trimmed to the same text.
pub proof fn lemma_trimmed_window(s: Seq<char>, lo: int, hi: int, t: Seq<char>, from: int)
    requires
        0 <= lo <= hi <= s.len(),
        0 <= from,
        from + (hi - lo) <= t.len(),
        s.subrange(lo, hi) == t.subrange(from, from + (hi - lo)),
    ensures
        trimmed(s, lo, hi) == trimmed(t, from, from + (hi - lo)),
{
    let to = from + (hi - lo);
    let w = s.subrange(lo, hi);
    let v = t.subrange(from, to);
    assert forall|i: int| lo <= i < hi implies s[i] == t[from + (i - lo)] by {
        assert(w[i - lo] == s[i]);
        assert(v[i - lo] == t[from + (i - lo)]);
    }
    let a = skip_white(t, from, to);
    crate::text::lemma_skip_white_bounds(t, from, to);
    let a2 = lo + (a - from);
    assert forall|i: int| lo <= i < a2 implies is_white_space(s[i]) by {
        assert(s[i] == t[from + (i - lo)]);
    }
    if a < to {
        assert(s[a2] == t[from + (a2 - lo)]);
    }
    lemma_skip_white_is(s, lo, hi, a2);
    let b = trim_back(t, a, to);
    crate::text::lemma_trim_back_bounds(t, a, to);
    let b2 = lo + (b - from);
    assert forall|i: int| b2 <= i < hi implies is_white_space(s[i]) by {
        assert(s[i] == t[from + (i - lo)]);
    }
    if a2 < b2 {
        assert(s[b2 - 1] == t[from + (b2 - 1 - lo)]);
    }
    lemma_trim_back_is(s, a2, hi, b2);
    assert(s.subrange(a2, b2) =~= t.subrange(a, b)) by {
        assert forall|i: int| 0 <= i < b - a implies s.subrange(a2, b2)[i] == t.subrange(a, b)[i] by {
            assert(s[a2 + i] == t[from + (a2 + i - lo)]);
        }
    }
}

/// A space before a text does not change what trimming leaves of it.
pub proof fn lemma_trimmed_after_space(value: Seq<char>)
    ensures
        trimmed_all(seq![' '] + value) == trimmed_all(value),
{
    let t = seq![' '] + value;
    let n = value.len() as int;
    assert(is_white_space(' '));
    assert(t[0] == ' ');
    assert(t.subrange(1, n + 1) =~= value.subrange(0, n));
    lemma_trimmed_window(t, 1, n + 1, value, 0);
    // The window of `t` from 0 and the window from 1 are trimmed alike.
    let a = skip_white(t, 1, n + 1);
    crate::text::lemma_skip_white_bounds(t, 1, n + 1);
    lemma_skip_white_is(t, 0, n + 1, a);
}

/// The header lines written out for `fields` are read back as `fields`: from
/// the start of the lines on, the headers that are read are the headers with
/// the fields set.
pub proof fn lemma_fields_read_back(
    s: Seq<char>,
    lo: int,
    headers: Map<Seq<char>, Seq<char>>,
    fields: Seq<(Seq<char>, Seq<char>)>,
)
    requires
        0 <= lo <= s.len(),
        s.skip(lo) == fields_text(fields) + line_ending(),
        are_fields(fields),
    ensures
        headers_from(s, lo, headers) == with_fields(headers, fields),
    decreases fields.len(),
{
    let rest = s.skip(lo);
    let n = s.len() as int;
    if fields.len() == 0 {
        assert(rest =~= line_ending());
        assert(n == lo + 2);
        assert(s[lo] == rest[0] && s[lo + 1] == rest[1]);
        lemma_find_char_is(s, '\n', lo, n, lo + 1);
        lemma_find_char_is(s, ':', lo, lo, lo);
        assert(line_break(s, lo) == lo + 1);
        assert(line_end(s, lo) == lo);
        assert(with_header_line(headers, s, lo, lo) == headers);
        assert(headers_from(s, lo + 2, headers) == headers);
        assert(with_fields(headers, fields) == headers);
    } else {
        let name = fields[0].0;
        let value = fields[0].1;
        let others = fields.drop_first();
        let line = field_text(name, value);
        let tail = fields_text(others) + line_ending();
        assert(rest =~= line + tail);
        assert(is_field(name, value));
        let colon = lo + name.len();
        let nl = lo + line.len() - 1;
        assert(line.len() == name.len() + 2 + value.len() + 2);
        assert forall|i: int| 0 <= i < line.len() implies s[lo + i] == line[i] by {
            assert(s[lo + i] == rest[i]);
        }
        assert forall|i: int| lo <= i < nl implies s[i] != '\n' by {
            let k = i - lo;
            assert(s[lo + k] == line[k]);
            if k < name.len() {
                assert(line[k] == name[k]);
            } else if k < name.len() + 2 {
            } else if k < name.len() + 2 + value.len() {
                assert(line[k] == value[k - name.len() - 2]);
            } else {
            }
        }
        assert(s[nl] == '\n') by {
            assert(s[lo + (line.len() - 1)] == line[line.len() - 1]);
        }
        assert(s[nl - 1] == '\r') by {
            assert(s[lo + (line.len() - 2)] == line[line.len() - 2]);
        }
        lemma_find_char_is(s, '\n', lo, n, nl);
        assert(line_break(s, lo) == nl);
        assert(line_end(s, lo) == nl - 1);
        assert forall|i: int| lo <= i < colon implies s[i] != ':' by {
            let k = i - lo;
            assert(s[lo + k] == line[k]);
            assert(line[k] == name[k]);
        }
        assert(s[colon] == ':') by {
            assert(s[lo + name.len()] == line[name.len() as int]);
        }
        lemma_find_char_is(s, ':', lo, nl - 1, colon);
        // The name.
        assert(s.subrange(lo, colon) =~= name.subrange(0, name.len() as int)) by {
            assert forall|i: int| 0 <= i < name.len() implies s.subrange(lo, colon)[i]
                == name[i] by {
                assert(s[lo + i] == line[i]);
            }
        }
        lemma_trimmed_window(s, lo, colon, name, 0);
        // The value, behind the space that follows the colon.
        let spaced = seq![' '] + value;
        assert(s.subrange(colon + 1, nl - 1) =~= spaced.subrange(0, spaced.len() as int)) by {
            assert forall|i: int| 0 <= i < spaced.len() implies s.subrange(colon + 1, nl - 1)[i]
                == spaced[i] by {
                assert(s[lo + (name.len() + 1 + i)] == line[name.len() + 1 + i]);
            }
        }
        lemma_trimmed_window(s, colon + 1, nl - 1, spaced, 0);
        lemma_trimmed_after_space(value);
        let read = with_header_line(headers, s, lo, nl - 1);
        assert(read == headers.insert(lowercase(trimmed_all(name)), trimmed_all(value)));
        // The lines that follow.
        assert(s.skip(nl + 1) =~= tail) by {
            assert forall|i: int| 0 <= i < tail.len() implies s.skip(nl + 1)[i] == tail[i] by {
                assert(s[lo + (line.len() + i)] == rest[line.len() + i]);
            }
        }
        assert(are_fields(others)) by {
            assert forall|i: int| 0 <= i < others.len() implies is_field(
                (#[trigger] others[i]).0,
                others[i].1,
            ) by {
                assert(others[i] == fields[i + 1]);
            }
        }
        assert(nl < n);
        lemma_fields_read_back(s, nl + 1, read, others);
        assert(headers_from(s, lo, headers) == headers_from(s, nl + 1, read));
        assert(with_fields(headers, fields) == with_fields(read, others));
    }
}

/// The head written out is read back: the head written for a method and a
/// path that are words, and for fields that can stand in header lines, reads
/// as that method, that path, and the headers with those fields set.
pub proof fn lemma_head_reads_back(
    method: Seq<char>,
    path: Seq<char>,
    fields: Seq<(Seq<char>, Seq<char>)>,
)
    requires
        is_word(method),
        is_word(path),
        are_fields(fields),
    ensures
        head_of(head_text(method, path, fields)) == Some(
            HeadModel { method, path, headers: with_fields(Map::empty(), fields) },
        ),
{
    let s = head_text(method, path, fields);
    let first = request_line(method, path);
    let m = method.len() as int;
    let p = path.len() as int;
    let n = s.len() as int;
    assert(first.len() == m + 1 + p + 11);
    assert forall|i: int| 0 <= i < first.len() implies s[i] == first[i] by {}
    let nl = first.len() - 1;
    let end = nl - 1;
    assert forall|i: int| 0 <= i < m implies s[i] == method[i] by {
        assert(first[i] == method[i]);
    }
    assert forall|i: int| 0 <= i < p implies s[m + 1 + i] == path[i] by {
        assert(first[m + 1 + i] == path[i]);
    }
    assert(s[m] == ' ') by {
        assert(first[m] == ' ');
    }
    assert(s[m + 1 + p] == ' ') by {
        assert(first[m + 1 + p] == version_tail()[0]);
    }
    assert(is_white_space(' '));
    assert(is_white_space('\n'));
    assert forall|i: int| 0 <= i < nl implies s[i] != '\n' by {
        if i < m {
            assert(s[i] == method[i]);
        } else if i == m {
        } else if i < m + 1 + p {
            assert(s[m + 1 + (i - m - 1)] == path[i - m - 1]);
        } else {
            assert(first[i] == version_tail()[i - m - 1 - p]);
        }
    }
    assert(s[nl] == '\n') by {
        assert(first[nl] == version_tail()[10]);
    }
    assert(s[nl - 1] == '\r') by {
        assert(first[nl - 1] == version_tail()[9]);
    }
    lemma_find_char_is(s, '\n', 0, n, nl);
    assert(line_break(s, 0) == nl);
    assert(line_end(s, 0) == end);
    // The method.
    assert(!is_white_space(s[0])) by {
        assert(s[0] == method[0]);
    }
    lemma_skip_white_is(s, 0, end, 0);
    assert forall|i: int| 0 <= i < m implies !is_white_space(s[i]) by {
        assert(s[i] == method[i]);
    }
    lemma_skip_word_is(s, 0, end, m);
    assert(s.subrange(0, m) =~= method);
    // The path.
    assert(!is_white_space(s[m + 1])) by {
        assert(s[m + 1 + 0] == path[0]);
    }
    lemma_skip_white_is(s, m, end, m + 1);
    assert forall|i: int| m + 1 <= i < m + 1 + p implies !is_white_space(s[i]) by {
        assert(s[m + 1 + (i - m - 1)] == path[i - m - 1]);
    }
    lemma_skip_word_is(s, m + 1, end, m + 1 + p);
    assert(s.subrange(m + 1, m + 1 + p) =~= path);
    assert(request_method(s) == method);
    assert(request_path(s) == path);
    // The header lines.
    assert(s.skip(nl + 1) =~= fields_text(fields) + line_ending());
    lemma_fields_read_back(s, nl + 1, Map::empty(), fields);
}

/// True when carriage return, line feed, carriage return, line feed start at
/// index `i` of `s`.
pub open spec fn blank_line_at(s: Seq<char>, i: int) -> bool {
    &&& 0 <= i
    &&& i + 4 <= s.len()
    &&& s[i] == '\r'
    &&& s[i + 1] == '\n'
    &&& s[i + 2] == '\r'
    &&& s[i + 3] == '\n'
}

/// In header lines written out, the end of a line is followed by the end of
/// a line only where the empty line stands.
pub proof fn lemma_fields_hold_no_blank_line(
    s: Seq<char>,
    lo: int,
    fields: Seq<(Seq<char>, Seq<char>)>,
)
    requires
        2 <= lo <= s.len(),
        s.skip(lo) == fields_text(fields) + line_ending(),
        are_fields(fields),
    ensures
        forall|j: int| lo - 2 <= j && #[trigger] blank_line_at(s, j) ==> j + 4 == s.len(),
    decreases fields.len(),
{
    let rest = s.skip(lo);
    if fields.len() == 0 {
        assert(rest =~= line_ending());
    } else {
        let name = fields[0].0;
        let value = fields[0].1;
        let others = fields.drop_first();
        let line = field_text(name, value);
        let tail = fields_text(others) + line_ending();
        assert(rest =~= line + tail);
        assert(is_field(name, value));
        assert(line.len() == name.len() + 2 + value.len() + 2);
        let nl = lo + line.len() - 1;
        assert forall|i: int| lo <= i < nl implies s[i] != '\n' by {
            let k = i - lo;
            assert(s[lo + k] == rest[k]);
            assert(rest[k] == line[k]);
            if k < name.len() {
                assert(line[k] == name[k]);
            } else if k < name.len() + 2 {
            } else if k < name.len() + 2 + value.len() {
                assert(line[k] == value[k - name.len() - 2]);
            } else {
            }
        }
        assert(s.skip(nl + 1) =~= tail) by {
            assert forall|i: int| 0 <= i < tail.len() implies s.skip(nl + 1)[i] == tail[i] by {
                assert(s[lo + (line.len() + i)] == rest[line.len() + i]);
            }
        }
        assert(are_fields(others)) by {
            assert forall|i: int| 0 <= i < others.len() implies is_field(
                (#[trigger] others[i]).0,
                others[i].1,
            ) by {
                assert(others[i] == fields[i + 1]);
            }
        }
        lemma_fields_hold_no_blank_line(s, nl + 1, others);
        assert forall|j: int| lo - 2 <= j && #[trigger] blank_line_at(s, j) implies j + 4
            == s.len() by {
            if j < nl - 1 {
                if j + 1 >= lo {
                    assert(s[j + 1] != '\n');
                } else {
                    assert(s[j + 3] != '\n');
                }
            }
        }
    }
}

/// In the head written out, the end of a line is followed by the end of a
/// line only at the end of the head.
pub proof fn lemma_head_ends_at_blank_line(
    method: Seq<char>,
    path: Seq<char>,
    fields: Seq<(Seq<char>, Seq<char>)>,
)
    requires
        is_word(method),
        is_word(path),
        are_fields(fields),
    ensures
        blank_line_at(
            head_text(method, path, fields),
            head_text(method, path, fields).len() - 4,
        ),
        forall|j: int| #[trigger]
            blank_line_at(head_text(method, path, fields), j) ==> j + 4 == head_text(
                method,
                path,
                fields,
            ).len(),
{
    let s = head_text(method, path, fields);
    let first = request_line(method, path);
    let m = method.len() as int;
    let p = path.len() as int;
    let n = s.len() as int;
    let lo = first.len() as int;
    assert(lo == m + 1 + p + 11);
    assert(is_white_space('\n'));
    assert forall|i: int| 0 <= i < lo - 1 implies s[i] != '\n' by {
        assert(s[i] == first[i]);
        if i < m {
            assert(first[i] == method[i]);
        } else if i == m {
        } else if i < m + 1 + p {
            assert(first[i] == path[i - m - 1]);
        } else {
            assert(first[i] == version_tail()[i - m - 1 - p]);
        }
    }
    assert(s.skip(lo) =~= fields_text(fields) + line_ending());
    lemma_fields_hold_no_blank_line(s, lo, fields);
    assert forall|j: int| #[trigger] blank_line_at(s, j) implies j + 4 == n by {
        if j < lo - 2 {
            assert(s[j + 1] != '\n');
        }
    }
    // The last four characters: the end of the last line, and the empty line.
    let body = fields_text(fields);
    if fields.len() > 0 {
        lemma_fields_end_with_line_ending(fields);
    }
    assert(s[n - 1] == '\n' && s[n - 2] == '\r') by {
        assert(s[n - 1] == line_ending()[1]);
        assert(s[n - 2] == line_ending()[0]);
    }
    assert(s[n - 3] == '\n' && s[n - 4] == '\r') by {
        if fields.len() == 0 {
            assert(body.len() == 0);
            assert(s[n - 3] == first[lo - 1]);
            assert(s[n - 4] == first[lo - 2]);
            assert(first[lo - 1] == version_tail()[10]);
            assert(first[lo - 2] == version_tail()[9]);
        } else {
            assert(s[n - 3] == body[body.len() - 1]);
            assert(s[n - 4] == body[body.len() - 2]);
        }
    }
}

/// Header lines written out end with the end of a line.
pub proof fn lemma_fields_end_with_line_ending(fields: Seq<(Seq<char>, Seq<char>)>)
    requires
        fields.len() > 0,
    ensures
        fields_text(fields).len() >= 4,
        fields_text(fields)[fields_text(fields).len() - 2] == '\r',
        fields_text(fields)[fields_text(fields).len() - 1] == '\n',
    decreases fields.len(),
{
    let line = field_text(fields[0].0, fields[0].1);
    let others = fields.drop_first();
    let all = fields_text(fields);
    assert(all == line + fields_text(others));
    assert(line.len() == fields[0].0.len() + 2 + fields[0].1.len() + 2);
    if others.len() == 0 {
        assert(fields_text(others).len() == 0);
        assert(all =~= line);
        assert(line[line.len() - 1] == line_ending()[1]);
        assert(line[line.len() - 2] == line_ending()[0]);
    } else {
        lemma_fields_end_with_line_ending(others);
        let rest = fields_text(others);
        assert(all[all.len() - 1] == rest[rest.len() - 1]);
        assert(all[all.len() - 2] == rest[rest.len() - 2]);
    }
}

} // verus!
