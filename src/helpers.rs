//! File-name sanitizing: turns arbitrary text into a string that is safe to use as a
//! file name on common file systems and inside URLs.
use vstd::prelude::*;
use vstd::string::StrSliceExecFns;

verus! {

/// The Unicode `White_Space` property, which `char::is_whitespace` tests.
pub open spec fn is_white_space(c: char) -> bool {
    ('\u{9}' <= c && c <= '\u{d}') || c == ' ' || c == '\u{85}' || c == '\u{a0}' || c
        == '\u{1680}' || ('\u{2000}' <= c && c <= '\u{200a}') || c == '\u{2028}' || c
        == '\u{2029}' || c == '\u{202f}' || c == '\u{205f}' || c == '\u{3000}'
}

/// The Unicode general category `Cc`, which `char::is_control` tests.
pub open spec fn is_control(c: char) -> bool {
    c <= '\u{1f}' || ('\u{7f}' <= c && c <= '\u{9f}')
}

/// Characters that are unsafe in a file name or a URL and stand for a separator.
pub open spec fn becomes_underscore(c: char) -> bool {
    c == ':' || c == '\\' || c == '/' || c == '|' || c == '?' || c == '~' || c == ',' || c == ';'
        || c == '='
}

/// Characters that are unsafe in a file name or a URL and are blanked out.
pub open spec fn becomes_space(c: char) -> bool {
    c == '<' || c == '>' || c == '"' || c == '*' || c == '#' || c == '%' || c == '{' || c == '}'
        || c == '^' || c == '[' || c == ']' || c == '+' || c == '`'
}

/// What one character of a line turns into: whitespace becomes a space, control
/// characters are dropped, unsafe characters are replaced.
pub open spec fn clean_char(c: char) -> Option<char> {
    if is_white_space(c) {
        Some(' ')
    } else if is_control(c) {
        None
    } else if becomes_underscore(c) {
        Some('_')
    } else if becomes_space(c) {
        Some(' ')
    } else {
        Some(c)
    }
}

/// A line with every character cleaned.
pub open spec fn cleaned(cs: Seq<char>) -> Seq<char>
    decreases cs.len(),
{
    if cs.len() == 0 {
        Seq::empty()
    } else {
        match clean_char(cs.last()) {
            Some(d) => cleaned(cs.drop_last()).push(d),
            None => cleaned(cs.drop_last()),
        }
    }
}

/// A space after a space is dropped; a period or an underscore after a period, a space
/// or an underscore is dropped.
pub open spec fn discards(c: char, last: char) -> bool {
    (c == ' ' && last == ' ') || ((c == '_' || c == '.') && (last == '.' || last == '_' || last
        == ' '))
}

/// The last character kept by `squeezed`, or `init` when none was kept.
pub open spec fn squeeze_state(cs: Seq<char>, init: char) -> char
    decreases cs.len(),
{
    if cs.len() == 0 {
        init
    } else {
        let l = squeeze_state(cs.drop_last(), init);
        if discards(cs.last(), l) {
            l
        } else {
            cs.last()
        }
    }
}

/// `cs` without the characters that `discards` drops, given that `init` came before.
pub open spec fn squeezed(cs: Seq<char>, init: char) -> Seq<char>
    decreases cs.len(),
{
    if cs.len() == 0 {
        Seq::empty()
    } else if discards(cs.last(), squeeze_state(cs.drop_last(), init)) {
        squeezed(cs.drop_last(), init)
    } else {
        squeezed(cs.drop_last(), init).push(cs.last())
    }
}

/// Characters trimmed from both ends of a line and of the result.
pub open spec fn is_edge_char(c: char) -> bool {
    is_white_space(c) || c == '_' || c == '-'
}

pub open spec fn trim_front(cs: Seq<char>) -> Seq<char>
    decreases cs.len(),
{
    if cs.len() > 0 && is_edge_char(cs[0]) {
        trim_front(cs.drop_first())
    } else {
        cs
    }
}

pub open spec fn trim_back(cs: Seq<char>) -> Seq<char>
    decreases cs.len(),
{
    if cs.len() > 0 && is_edge_char(cs.last()) {
        trim_back(cs.drop_last())
    } else {
        cs
    }
}

/// `cs` without edge characters at its start and at its end.
pub open spec fn trimmed(cs: Seq<char>) -> Seq<char> {
    trim_back(trim_front(cs))
}

/// `s` cut at every newline; an empty string gives one empty piece.
pub open spec fn pieces(s: Seq<char>) -> Seq<Seq<char>>
    decreases s.len(),
{
    if s.len() == 0 {
        seq![Seq::empty()]
    } else {
        let p = pieces(s.drop_last());
        if s.last() == '\n' {
            p.push(Seq::empty())
        } else {
            p.update(p.len() - 1, p.last().push(s.last()))
        }
    }
}

pub open spec fn strip_cr(l: Seq<char>) -> Seq<char> {
    if l.len() > 0 && l.last() == '\r' {
        l.drop_last()
    } else {
        l
    }
}

/// The lines of `s` as `str::lines` yields them: a line ends at `\n` or `\r\n`, and a
/// final line ending adds no empty line.
pub open spec fn lines_of(s: Seq<char>) -> Seq<Seq<char>> {
    let p = pieces(s);
    let n = if p.last().len() == 0 {
        p.len() - 1
    } else {
        p.len() as int
    };
    Seq::new(
        n as nat,
        |i: int|
            if i < p.len() - 1 {
                strip_cr(p[i])
            } else {
                p[i]
            },
    )
}

/// The squeeze state after the lines `ls`, which carries over from one line to the next.
pub open spec fn line_state(ls: Seq<Seq<char>>, init: char) -> char
    decreases ls.len(),
{
    if ls.len() == 0 {
        init
    } else {
        squeeze_state(cleaned(ls.last()), line_state(ls.drop_last(), init))
    }
}

/// Every line cleaned, squeezed, trimmed and followed by `-`.
pub open spec fn joined(ls: Seq<Seq<char>>, init: char) -> Seq<char>
    decreases ls.len(),
{
    if ls.len() == 0 {
        Seq::empty()
    } else {
        joined(ls.drop_last(), init) + trimmed(
            squeezed(cleaned(ls.last()), line_state(ls.drop_last(), init)),
        ).push('-')
    }
}

/// The sanitized form of `s`. The squeeze starts as if a period came first, so that
/// the result never starts with a period.
pub open spec fn sanitized(s: Seq<char>) -> Seq<char> {
    trimmed(joined(lines_of(s), '.'))
}

pub proof fn lemma_pieces_nonempty(s: Seq<char>)
    ensures
        pieces(s).len() >= 1,
    decreases s.len(),
{
    if s.len() > 0 {
        lemma_pieces_nonempty(s.drop_last());
    }
}

fn char_is_white_space(c: char) -> (r: bool)
    ensures
        r == is_white_space(c),
{
    ('\u{9}' <= c && c <= '\u{d}') || c == ' ' || c == '\u{85}' || c == '\u{a0}' || c
        == '\u{1680}' || ('\u{2000}' <= c && c <= '\u{200a}') || c == '\u{2028}' || c
        == '\u{2029}' || c == '\u{202f}' || c == '\u{205f}' || c == '\u{3000}'
}

fn clean_one(c: char) -> (r: Option<char>)
    ensures
        r == clean_char(c),
{
    if char_is_white_space(c) {
        Some(' ')
    } else if c <= '\u{1f}' || ('\u{7f}' <= c && c <= '\u{9f}') {
        None
    } else if c == ':' || c == '\\' || c == '/' || c == '|' || c == '?' || c == '~' || c == ','
        || c == ';' || c == '=' {
        Some('_')
    } else if c == '<' || c == '>' || c == '"' || c == '*' || c == '#' || c == '%' || c == '{'
        || c == '}' || c == '^' || c == '[' || c == ']' || c == '+' || c == '`' {
        Some(' ')
    } else {
        Some(c)
    }
}

fn chars_of(s: &str) -> (r: Vec<char>)
    ensures
        r@ == s@,
{
    let n = s.unicode_len();
    let mut v: Vec<char> = Vec::new();
    let mut i: usize = 0;
    while i < n
        invariant
            n == s@.len(),
            i <= n,
            v@ == s@.subrange(0, i as int),
        decreases n - i,
    {
        v.push(s.get_char(i));
        i += 1;
    }
    v
}

fn split_lines(s: &Vec<char>) -> (r: Vec<Vec<char>>)
    ensures
        r@.len() == lines_of(s@).len(),
        forall|j: int| 0 <= j < r@.len() ==> #[trigger] r@[j]@ == lines_of(s@)[j],
{
    let mut parts: Vec<Vec<char>> = Vec::new();
    let mut cur: Vec<char> = Vec::new();
    let mut i: usize = 0;
    while i < s.len()
        invariant
            i <= s@.len(),
            parts@.len() + 1 == pieces(s@.subrange(0, i as int)).len(),
            forall|j: int|
                0 <= j < parts@.len() ==> #[trigger] parts@[j]@ == strip_cr(
                    pieces(s@.subrange(0, i as int))[j],
                ),
            cur@ == pieces(s@.subrange(0, i as int)).last(),
        decreases s@.len() - i,
    {
        let ghost before = s@.subrange(0, i as int);
        let ghost after = s@.subrange(0, i + 1);
        assert(after.drop_last() == before);
        proof {
            lemma_pieces_nonempty(before);
        }
        let c = s[i];
        if c == '\n' {
            let mut line = cur;
            if line.len() > 0 && line[line.len() - 1] == '\r' {
                line.pop();
            }
            parts.push(line);
            cur = Vec::new();
        } else {
            cur.push(c);
        }
        i += 1;
    }
    assert(s@.subrange(0, s@.len() as int) == s@);
    proof {
        lemma_pieces_nonempty(s@);
    }
    if cur.len() > 0 {
        parts.push(cur);
    }
    parts
}

fn clean_line(line: &Vec<char>) -> (r: Vec<char>)
    ensures
        r@ == cleaned(line@),
{
    let mut out: Vec<char> = Vec::new();
    let mut i: usize = 0;
    while i < line.len()
        invariant
            i <= line@.len(),
            out@ == cleaned(line@.subrange(0, i as int)),
        decreases line@.len() - i,
    {
        assert(line@.subrange(0, i + 1).drop_last() == line@.subrange(0, i as int));
        match clean_one(line[i]) {
            Some(d) => out.push(d),
            None => {},
        }
        i += 1;
    }
    assert(line@.subrange(0, line@.len() as int) == line@);
    out
}

fn squeeze(cs: &Vec<char>, init: char) -> (r: (Vec<char>, char))
    ensures
        r.0@ == squeezed(cs@, init),
        r.1 == squeeze_state(cs@, init),
{
    let mut out: Vec<char> = Vec::new();
    let mut last = init;
    let mut i: usize = 0;
    while i < cs.len()
        invariant
            i <= cs@.len(),
            out@ == squeezed(cs@.subrange(0, i as int), init),
            last == squeeze_state(cs@.subrange(0, i as int), init),
        decreases cs@.len() - i,
    {
        assert(cs@.subrange(0, i + 1).drop_last() == cs@.subrange(0, i as int));
        let c = cs[i];
        let discard = (c == ' ' && last == ' ') || ((c == '_' || c == '.') && (last == '.' || last
            == '_' || last == ' '));
        if !discard {
            out.push(c);
            last = c;
        }
        i += 1;
    }
    assert(cs@.subrange(0, cs@.len() as int) == cs@);
    (out, last)
}

fn is_edge(c: char) -> (r: bool)
    ensures
        r == is_edge_char(c),
{
    char_is_white_space(c) || c == '_' || c == '-'
}

fn trim(cs: &Vec<char>) -> (r: Vec<char>)
    ensures
        r@ == trimmed(cs@),
{
    let n = cs.len();
    let mut a: usize = 0;
    assert(cs@.subrange(0, n as int) == cs@);
    while a < n && is_edge(cs[a])
        invariant
            n == cs@.len(),
            a <= n,
            trim_front(cs@) == trim_front(cs@.subrange(a as int, n as int)),
        decreases n - a,
    {
        assert(cs@.subrange(a as int, n as int).drop_first() == cs@.subrange(a + 1, n as int));
        a += 1;
    }
    let mut b: usize = n;
    while b > a && is_edge(cs[b - 1])
        invariant
            n == cs@.len(),
            a <= b <= n,
            trim_front(cs@) == cs@.subrange(a as int, n as int),
            trimmed(cs@) == trim_back(cs@.subrange(a as int, b as int)),
        decreases b - a,
    {
        assert(cs@.subrange(a as int, b as int).drop_last() == cs@.subrange(a as int, b - 1));
        b -= 1;
    }
    let mut out: Vec<char> = Vec::new();
    let mut k: usize = a;
    while k < b
        invariant
            a <= k <= b <= n,
            n == cs@.len(),
            out@ == cs@.subrange(a as int, k as int),
        decreases b - k,
    {
        out.push(cs[k]);
        k += 1;
    }
    out
}

/// Relies on `String`'s `FromIterator<char>`: the string holds the characters in order.
#[verifier::external_body]
fn string_from_chars(v: Vec<char>) -> (r: String)
    ensures
        r@ == v@,
{
    v.into_iter().collect()
}

/// Makes `s` safe to use as a file name: whitespace becomes a space, control characters
/// go, characters unsafe in file names or URLs are replaced, runs of separators are
/// squeezed, each line is trimmed and ended by `-`, and the whole is trimmed.
pub fn sanitize(s: &str) -> (r: String)
    ensures
        r@ == sanitized(s@),
{
    let text = chars_of(s);
    let lines = split_lines(&text);
    let ghost ls = lines_of(s@);
    let mut out: Vec<char> = Vec::new();
    let mut last: char = '.';
    let mut i: usize = 0;
    while i < lines.len()
        invariant
            i <= lines@.len(),
            lines@.len() == ls.len(),
            forall|j: int| 0 <= j < lines@.len() ==> #[trigger] lines@[j]@ == ls[j],
            out@ == joined(ls.subrange(0, i as int), '.'),
            last == line_state(ls.subrange(0, i as int), '.'),
        decreases lines@.len() - i,
    {
        assert(ls.subrange(0, i + 1).drop_last() == ls.subrange(0, i as int));
        assert(ls.subrange(0, i + 1).last() == lines@[i as int]@);
        let c = clean_line(&lines[i]);
        let (sq, next) = squeeze(&c, last);
        let mut t = trim(&sq);
        t.push('-');
        out.append(&mut t);
        last = next;
        i += 1;
    }
    assert(ls.subrange(0, ls.len() as int) == ls);
    let r = trim(&out);
    string_from_chars(r)
}

} // verus!
