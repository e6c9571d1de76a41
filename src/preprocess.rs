use vstd::prelude::*;
use crate::lexer::{chars_of, text};

verus! {

/// The text split at each `\n`: one more part than there are newlines.
pub open spec fn split_newlines(s: Seq<char>) -> Seq<Seq<char>>
    decreases s.len(),
{
    if s.len() == 0 {
        seq![seq![]]
    } else {
        let before = split_newlines(s.drop_last());
        if s.last() == '\n' {
            before.push(seq![])
        } else {
            before.update(before.len() - 1, before.last().push(s.last()))
        }
    }
}

/// A line without the `\r` of a `\r\n` ending.
pub open spec fn without_cr(line: Seq<char>) -> Seq<char> {
    if line.len() > 0 && line.last() == '\r' {
        line.drop_last()
    } else {
        line
    }
}

/// The lines of a text: split at `\n` (a `\r` before it belongs to the ending); a final line
/// ending does not start another line.
pub open spec fn lines_of(s: Seq<char>) -> Seq<Seq<char>> {
    let parts = split_newlines(s);
    let parts = if parts.last().len() == 0 {
        parts.drop_last()
    } else {
        parts
    };
    parts.map_values(|p: Seq<char>| without_cr(p))
}

/// The index of the first `#` of a line, or its length.
pub open spec fn comment_start(line: Seq<char>) -> int
    decreases line.len(),
{
    if line.len() == 0 {
        0
    } else if line[0] == '#' {
        0
    } else {
        1 + comment_start(line.drop_first())
    }
}

/// The index of the first `@ ` of a text, if any.
pub open spec fn include_start(text: Seq<char>) -> Option<int>
    decreases text.len(),
{
    if text.len() < 2 {
        None
    } else if text[0] == '@' && text[1] == ' ' {
        Some(0)
    } else {
        match include_start(text.drop_first()) {
            Some(i) => Some(i + 1),
            None => None,
        }
    }
}

/// A line without its comment, split at its first `@ `: the text before it, and the path of
/// the file to splice in its place, if any.
pub open spec fn split_line(line: Seq<char>) -> (Seq<char>, Option<Seq<char>>) {
    let code = line.take(comment_start(line));
    match include_start(code) {
        Some(i) => (code.take(i), Some(code.skip(i + 2))),
        None => (code, None),
    }
}

/// Texts joined with `\n` between them.
pub open spec fn joined(parts: Seq<Seq<char>>) -> Seq<char>
    decreases parts.len(),
{
    if parts.len() == 0 {
        seq![]
    } else if parts.len() == 1 {
        parts[0]
    } else {
        joined(parts.drop_last()) + seq!['\n'] + parts.last()
    }
}

proof fn lemma_comment_start(line: Seq<char>)
    ensures
        0 <= comment_start(line) <= line.len(),
        comment_start(line) < line.len() ==> line[comment_start(line)] == '#',
        forall|k: int| 0 <= k < comment_start(line) ==> line[k] != '#',
    decreases line.len(),
{
    if line.len() > 0 && line[0] != '#' {
        lemma_comment_start(line.drop_first());
        assert forall|k: int| 0 <= k < comment_start(line) implies line[k] != '#' by {
            if k > 0 {
                assert(line[k] == line.drop_first()[k - 1]);
            }
        }
    }
}

proof fn lemma_include_start(text: Seq<char>)
    ensures
        include_start(text) matches Some(i) ==> 0 <= i && i + 2 <= text.len() && text[i] == '@' && text[i + 1] == ' ',
        include_start(text) matches Some(i) ==> forall|k: int| 0 <= k < i ==> !(#[trigger] text[k] == '@' && text[k + 1] == ' '),
        include_start(text) is None ==> forall|k: int| 0 <= k < text.len() - 1 ==> !(#[trigger] text[k] == '@' && text[k + 1] == ' '),
    decreases text.len(),
{
    if text.len() >= 2 && !(text[0] == '@' && text[1] == ' ') {
        let t = text.drop_first();
        lemma_include_start(t);
        assert forall|k: int| 1 <= k < text.len() - 1 implies #[trigger] text[k] == t[k - 1] && text[k + 1] == t[k] by {}
    }
}

fn find_comment(s: &Vec<char>, a: usize, b: usize) -> (r: usize)
    requires
        a <= b <= s@.len(),
    ensures
        a <= r <= b,
        r - a == comment_start(s@.subrange(a as int, b as int)),
{
    let ghost line = s@.subrange(a as int, b as int);
    proof {
        lemma_comment_start(line);
    }
    let mut i = a;
    while i < b
        invariant
            a <= i <= b <= s@.len(),
            line == s@.subrange(a as int, b as int),
            forall|k: int| a <= k < i ==> s@[k] != '#',
            i - a <= comment_start(line),
        decreases b - i,
    {
        proof {
            lemma_comment_start(line);
        }
        if s[i] == '#' {
            assert(line[i - a] == '#');
            return i;
        }
        assert(line[i - a] != '#');
        i = i + 1;
    }
    proof {
        lemma_comment_start(line);
    }
    i
}

fn find_include(s: &Vec<char>, a: usize, b: usize) -> (r: Option<usize>)
    requires
        a <= b <= s@.len(),
    ensures
        r matches Some(i) ==> a <= i && i + 2 <= b && include_start(s@.subrange(a as int, b as int)) == Some(i - a),
        r is None ==> include_start(s@.subrange(a as int, b as int)) is None,
{
    let ghost text = s@.subrange(a as int, b as int);
    let mut i = a;
    while b - i >= 2
        invariant
            a <= i <= b <= s@.len(),
            text == s@.subrange(a as int, b as int),
            forall|k: int| 0 <= k < i - a ==> !(#[trigger] text[k] == '@' && text[k + 1] == ' '),
        decreases b - i,
    {
        proof {
            lemma_include_start(text);
        }
        if s[i] == '@' && s[i + 1] == ' ' {
            assert(text[i - a] == '@' && text[i - a + 1] == ' ');
            return Some(i);
        }
        i = i + 1;
    }
    proof {
        lemma_include_start(text);
        if include_start(text) is Some {
            let j = include_start(text)->0;
            assert(text[j] == '@' && text[j + 1] == ' ');
        }
    }
    None
}

/// Strips the comment of the line `s[a..b]` of `src`, and splits it at its first `@ `.
fn split_one(src: &str, s: &Vec<char>, a: usize, b: usize) -> (r: (String, Option<String>))
    requires
        s@ == src@,
        a <= b <= s@.len(),
    ensures
        r.0@ == split_line(s@.subrange(a as int, b as int)).0,
        r.1 matches Some(p) ==> split_line(s@.subrange(a as int, b as int)).1 == Some(p@),
        r.1 is None ==> split_line(s@.subrange(a as int, b as int)).1 is None,
{
    let ghost line = s@.subrange(a as int, b as int);
    let h = find_comment(s, a, b);
    assert(line.take(h - a) =~= s@.subrange(a as int, h as int));
    match find_include(s, a, h) {
        Some(i) => {
            assert(s@.subrange(a as int, h as int).take(i - a) =~= s@.subrange(a as int, i as int));
            assert(s@.subrange(a as int, h as int).skip(i - a + 2) =~= s@.subrange(i + 2, h as int));
            (text(src, a, i), Some(text(src, i + 2, h)))
        },
        None => (text(src, a, h), None),
    }
}

/// Whether an executable line split is the one `split_line` describes.
pub open spec fn splits_as(r: (String, Option<String>), line: Seq<char>) -> bool {
    &&& r.0@ == split_line(line).0
    &&& match r.1 {
        Some(p) => split_line(line).1 == Some(p@),
        None => split_line(line).1 is None,
    }
}

/// Splits a source text into its lines, each without its comment and split at its first `@ `
/// into the text before it and the path of the file to splice there.
pub fn split_source(source: &str) -> (r: Vec<(String, Option<String>)>)
    ensures
        r@.len() == lines_of(source@).len(),
        forall|k: int| 0 <= k < r@.len() ==> splits_as(#[trigger] r@[k], lines_of(source@)[k]),
{
    let s = chars_of(source);
    let mut out: Vec<(String, Option<String>)> = Vec::new();
    let ghost mut parts: Seq<Seq<char>> = seq![];
    let mut start: usize = 0;
    let mut i: usize = 0;
    assert(s@.take(0) =~= Seq::<char>::empty());
    assert(s@.subrange(0, 0) =~= Seq::<char>::empty());
    while i < s.len()
        invariant
            s@ == source@,
            start <= i <= s@.len(),
            split_newlines(s@.take(i as int)) == parts.push(s@.subrange(start as int, i as int)),
            out@.len() == parts.len(),
            forall|k: int| 0 <= k < out@.len() ==> splits_as(#[trigger] out@[k], without_cr(parts[k])),
        decreases s@.len() - i,
    {
        assert(s@.take(i + 1).drop_last() =~= s@.take(i as int));
        assert(s@.take(i + 1).last() == s@[i as int]);
        if s[i] == '\n' {
            let end = if i > start && s[i - 1] == '\r' { i - 1 } else { i };
            let ghost part = s@.subrange(start as int, i as int);
            assert(without_cr(part) =~= s@.subrange(start as int, end as int));
            let line = split_one(source, &s, start, end);
            out.push(line);
            proof {
                parts = parts.push(part);
            }
            start = i + 1;
            assert(s@.subrange(start as int, i + 1) =~= Seq::<char>::empty());
        } else {
            assert(s@.subrange(start as int, i + 1) =~= s@.subrange(start as int, i as int).push(s@[i as int]));
        }
        i = i + 1;
    }
    assert(s@.take(i as int) =~= s@);
    let ghost all = split_newlines(s@);
    if start < i {
        let end = if s[i - 1] == '\r' { i - 1 } else { i };
        let ghost part = s@.subrange(start as int, i as int);
        assert(without_cr(part) =~= s@.subrange(start as int, end as int));
        let line = split_one(source, &s, start, end);
        out.push(line);
        proof {
            parts = parts.push(part);
        }
        assert(lines_of(source@) =~= parts.map_values(|p: Seq<char>| without_cr(p)));
    } else {
        assert(all.last().len() == 0);
        assert(all.drop_last() =~= parts);
        assert(lines_of(source@) =~= parts.map_values(|p: Seq<char>| without_cr(p)));
    }
    out
}

/// The text of each line, with the contents of its file spliced in where it has one.
pub open spec fn spliced(lines: Seq<(String, Option<String>)>, included: Seq<String>) -> Seq<Seq<char>> {
    Seq::new(
        lines.len(),
        |k: int|
            if lines[k].1 is Some {
                lines[k].0@ + included[k]@
            } else {
                lines[k].0@
            },
    )
}

/// Joins the lines back into one text, with the preprocessed contents of each included file
/// (`included[k]` for line `k`) in place of its `@ ` directive.
pub fn splice(lines: &Vec<(String, Option<String>)>, included: &Vec<String>) -> (r: String)
    requires
        included@.len() == lines@.len(),
    ensures
        r@ == joined(spliced(lines@, included@)),
{
    let ghost parts = spliced(lines@, included@);
    let mut r = String::new();
    let mut i: usize = 0;
    while i < lines.len()
        invariant
            i <= lines@.len(),
            included@.len() == lines@.len(),
            parts == spliced(lines@, included@),
            r@ == joined(parts.take(i as int)),
        decreases lines@.len() - i,
    {
        assert(parts.take(i + 1).drop_last() =~= parts.take(i as int));
        if i > 0 {
            r.append("\n");
            proof {
                reveal_strlit("\n");
            }
        }
        r.append(lines[i].0.as_str());
        if lines[i].1.is_some() {
            r.append(included[i].as_str());
        }
        assert(r@ =~= joined(parts.take(i + 1))) by {
            if i == 0 {
                assert(parts.take(1) =~= seq![parts[0]]);
            }
        }
        i = i + 1;
    }
    assert(parts.take(i as int) =~= parts);
    r
}

/// A source file, by its path.
#[derive(Debug)]
pub struct File {
    pub path: String,
}

/// Relies on `path_clean::clean`: a lexical normalisation of the path (repeated separators,
/// `.` and `..` elements removed), never empty, since an empty result becomes `.`. How a path
/// splits into elements depends on the platform, so nothing more is stated.
#[verifier::external_body]
fn clean_path(path: &str) -> (r: String)
    ensures
        r@.len() > 0,
{
    path_clean::clean(path).to_string_lossy().into_owned()
}

impl File {
    /// The name diagnostics give the file, and the scope of what it includes: `@` and its
    /// cleaned path.
    pub fn name(&self) -> (r: String)
        ensures
            r@.len() >= 2,
            r@[0] == '@',
    {
        let cleaned = clean_path(self.path.as_str());
        let r = String::from_str("@").concat(cleaned.as_str());
        proof {
            reveal_strlit("@");
        }
        r
    }
}

} // verus!
