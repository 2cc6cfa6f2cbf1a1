//! Character-level text helpers: splitting a document into lines, splitting
//! a line into whitespace-separated tokens, and joining lines back together.

use vstd::prelude::*;
use vstd::string::StrSliceExecFns;

verus! {

/// Characters treated as whitespace when a line is split into tokens:
/// the ASCII whitespace characters.
pub open spec fn is_space(c: char) -> bool {
    c == ' ' || c == '\t' || c == '\n' || c == '\r' || c == '\x0b' || c == '\x0c'
}

pub fn is_space_char(c: char) -> (r: bool)
    ensures
        r == is_space(c),
{
    c == ' ' || c == '\t' || c == '\n' || c == '\r' || c == '\x0b' || c == '\x0c'
}

/// Index of the first newline of `s`, or `s.len()` if there is none.
pub open spec fn first_nl(s: Seq<char>) -> nat
    decreases s.len(),
{
    if s.len() == 0 {
        0
    } else if s[0] == '\n' {
        0
    } else {
        1 + first_nl(s.skip(1))
    }
}

pub proof fn lemma_first_nl(s: Seq<char>)
    ensures
        first_nl(s) <= s.len(),
        forall|j: int| 0 <= j < first_nl(s) ==> s[j] != '\n',
        first_nl(s) < s.len() ==> s[first_nl(s) as int] == '\n',
    decreases s.len(),
{
    if s.len() == 0 {
    } else if s[0] == '\n' {
    } else {
        lemma_first_nl(s.skip(1));
        assert forall|j: int| 0 <= j < first_nl(s) implies s[j] != '\n' by {
            if j > 0 {
                assert(s.skip(1)[j - 1] == s[j]);
            }
        }
        if first_nl(s) < s.len() {
            assert(s.skip(1)[first_nl(s) - 1] == s[first_nl(s) as int]);
        }
    }
}

/// The converse direction: a scan that saw no newline before `m`, and a
/// newline (or the end) at `m`, has found `first_nl`.
pub proof fn lemma_first_nl_is(s: Seq<char>, m: int)
    requires
        0 <= m <= s.len(),
        forall|j: int| 0 <= j < m ==> s[j] != '\n',
        m < s.len() ==> s[m] == '\n',
    ensures
        first_nl(s) == m,
    decreases m,
{
    if m == 0 {
    } else {
        assert forall|j: int| 0 <= j < m - 1 implies s.skip(1)[j] != '\n' by {
            assert(s.skip(1)[j] == s[j + 1]);
        }
        if m - 1 < s.skip(1).len() {
            assert(s.skip(1)[m - 1] == s[m]);
        }
        lemma_first_nl_is(s.skip(1), m - 1);
    }
}

/// The lines of a document: maximal newline-free runs, where a final
/// newline closes the last line rather than opening an empty one.
pub open spec fn split_lines(doc: Seq<char>) -> Seq<Seq<char>>
    decreases doc.len(),
{
    if doc.len() == 0 {
        Seq::empty()
    } else {
        let i = first_nl(doc) as int;
        if i >= doc.len() {
            seq![doc]
        } else {
            seq![doc.take(i)] + split_lines(doc.skip(i + 1))
        }
    }
}

pub open spec fn nl_free(line: Seq<char>) -> bool {
    forall|j: int| 0 <= j < line.len() ==> line[j] != '\n'
}

pub open spec fn nl_free_lines(lines: Seq<Seq<char>>) -> bool {
    forall|i: int| 0 <= i < lines.len() ==> nl_free(#[trigger] lines[i])
}

pub proof fn lemma_split_lines_nl_free(doc: Seq<char>)
    ensures
        nl_free_lines(split_lines(doc)),
    decreases doc.len(),
{
    lemma_first_nl(doc);
    if doc.len() == 0 {
    } else {
        let i = first_nl(doc) as int;
        if i >= doc.len() {
            assert(nl_free(doc));
        } else {
            lemma_split_lines_nl_free(doc.skip(i + 1));
            let lines = split_lines(doc);
            assert forall|k: int| 0 <= k < lines.len() implies nl_free(#[trigger] lines[k]) by {
                if k == 0 {
                    assert(nl_free(doc.take(i)));
                } else {
                    assert(lines[k] == split_lines(doc.skip(i + 1))[k - 1]);
                }
            }
        }
    }
}

/// Joining lines: each line followed by a single newline.
pub open spec fn join_lines(lines: Seq<Seq<char>>) -> Seq<char>
    decreases lines.len(),
{
    if lines.len() == 0 {
        Seq::empty()
    } else {
        lines[0] + seq!['\n'] + join_lines(lines.skip(1))
    }
}

pub proof fn lemma_join_single(line: Seq<char>)
    ensures
        join_lines(seq![line]) == line + seq!['\n'],
{
    assert(seq![line].skip(1) =~= Seq::<Seq<char>>::empty());
    assert(join_lines(seq![line].skip(1)) == Seq::<char>::empty());
    assert(join_lines(seq![line]) =~= line + seq!['\n']);
}

pub proof fn lemma_join_lines_concat(a: Seq<Seq<char>>, b: Seq<Seq<char>>)
    ensures
        join_lines(a + b) == join_lines(a) + join_lines(b),
    decreases a.len(),
{
    if a.len() == 0 {
        assert(a + b =~= b);
        assert(join_lines(a) + join_lines(b) =~= join_lines(b));
    } else {
        lemma_join_lines_concat(a.skip(1), b);
        assert((a + b).skip(1) =~= a.skip(1) + b);
        assert((a + b)[0] == a[0]);
        assert(join_lines(a + b) =~= join_lines(a) + join_lines(b));
    }
}

/// Splitting undoes joining, provided no line holds a newline itself.
pub proof fn lemma_split_join(lines: Seq<Seq<char>>)
    requires
        nl_free_lines(lines),
    ensures
        split_lines(join_lines(lines)) == lines,
    decreases lines.len(),
{
    if lines.len() == 0 {
    } else {
        let l0 = lines[0];
        let rest = join_lines(lines.skip(1));
        let doc = join_lines(lines);
        assert(doc == l0 + seq!['\n'] + rest);
        assert forall|j: int| 0 <= j < l0.len() implies doc[j] != '\n' by {
            assert(doc[j] == l0[j]);
        }
        assert(doc[l0.len() as int] == '\n');
        lemma_first_nl_is(doc, l0.len() as int);
        assert(doc.take(l0.len() as int) =~= l0);
        assert(doc.skip(l0.len() as int + 1) =~= rest);
        assert forall|i: int| 0 <= i < lines.skip(1).len() implies nl_free(
            #[trigger] lines.skip(1)[i],
        ) by {
            assert(lines.skip(1)[i] == lines[i + 1]);
        }
        lemma_split_join(lines.skip(1));
        assert(split_lines(doc) =~= lines);
    }
}

/// Length of the leading whitespace-free run of `s`.
pub open spec fn token_len(s: Seq<char>) -> nat
    decreases s.len(),
{
    if s.len() == 0 {
        0
    } else if is_space(s[0]) {
        0
    } else {
        1 + token_len(s.skip(1))
    }
}

pub proof fn lemma_token_len(s: Seq<char>)
    ensures
        token_len(s) <= s.len(),
        forall|j: int| 0 <= j < token_len(s) ==> !is_space(s[j]),
        token_len(s) < s.len() ==> is_space(s[token_len(s) as int]),
    decreases s.len(),
{
    if s.len() == 0 {
    } else if is_space(s[0]) {
    } else {
        lemma_token_len(s.skip(1));
        assert forall|j: int| 0 <= j < token_len(s) implies !is_space(s[j]) by {
            if j > 0 {
                assert(s.skip(1)[j - 1] == s[j]);
            }
        }
        if token_len(s) < s.len() {
            assert(s.skip(1)[token_len(s) - 1] == s[token_len(s) as int]);
        }
    }
}

pub proof fn lemma_token_len_is(s: Seq<char>, m: int)
    requires
        0 <= m <= s.len(),
        forall|j: int| 0 <= j < m ==> !is_space(s[j]),
        m < s.len() ==> is_space(s[m]),
    ensures
        token_len(s) == m,
    decreases m,
{
    if m == 0 {
    } else {
        assert forall|j: int| 0 <= j < m - 1 implies !is_space(s.skip(1)[j]) by {
            assert(s.skip(1)[j] == s[j + 1]);
        }
        if m - 1 < s.skip(1).len() {
            assert(s.skip(1)[m - 1] == s[m]);
        }
        lemma_token_len_is(s.skip(1), m - 1);
    }
}

/// The whitespace-separated tokens of `s`, in order.
pub open spec fn split_ws(s: Seq<char>) -> Seq<Seq<char>>
    decreases s.len(),
{
    if s.len() == 0 {
        Seq::empty()
    } else if is_space(s[0]) {
        split_ws(s.skip(1))
    } else {
        let t = token_len(s) as int;
        if t >= s.len() {
            seq![s]
        } else {
            seq![s.take(t)] + split_ws(s.skip(t))
        }
    }
}

/// Leading whitespace does not change the tokens.
pub proof fn lemma_split_ws_skip_spaces(s: Seq<char>, k: int)
    requires
        0 <= k <= s.len(),
        forall|j: int| 0 <= j < k ==> is_space(s[j]),
    ensures
        split_ws(s) == split_ws(s.skip(k)),
    decreases k,
{
    if k == 0 {
        assert(s.skip(0) =~= s);
    } else {
        assert forall|j: int| 0 <= j < k - 1 implies is_space(s.skip(1)[j]) by {
            assert(s.skip(1)[j] == s[j + 1]);
        }
        lemma_split_ws_skip_spaces(s.skip(1), k - 1);
        assert(s.skip(1).skip(k - 1) =~= s.skip(k));
    }
}

/// Every token is non-empty and free of whitespace.
pub proof fn lemma_split_ws_tokens(s: Seq<char>)
    ensures
        forall|i: int| 0 <= i < split_ws(s).len() ==> (#[trigger] split_ws(s)[i]).len() > 0,
        forall|i: int, j: int|
            0 <= i < split_ws(s).len() && 0 <= j < split_ws(s)[i].len() ==> !is_space(
                #[trigger] split_ws(s)[i][j],
            ),
    decreases s.len(),
{
    if s.len() == 0 {
    } else if is_space(s[0]) {
        lemma_split_ws_tokens(s.skip(1));
        assert(split_ws(s) == split_ws(s.skip(1)));
    } else {
        lemma_token_len(s);
        let t = token_len(s) as int;
        assert(t >= 1);
        if t >= s.len() {
            assert(split_ws(s) == seq![s]);
            assert(split_ws(s)[0] == s);
        } else {
            lemma_split_ws_tokens(s.skip(t));
            let toks = split_ws(s);
            assert forall|i: int| 0 <= i < toks.len() implies (#[trigger] toks[i]).len() > 0 by {
                if i == 0 {
                    assert(toks[0] == s.take(t));
                } else {
                    assert(toks[i] == split_ws(s.skip(t))[i - 1]);
                }
            }
            assert forall|i: int, j: int|
                0 <= i < toks.len() && 0 <= j < toks[i].len() implies !is_space(
                #[trigger] toks[i][j],
            ) by {
                if i == 0 {
                    assert(toks[0] == s.take(t));
                    assert(s.take(t)[j] == s[j]);
                } else {
                    assert(toks[i] == split_ws(s.skip(t))[i - 1]);
                }
            }
        }
    }
}

/// First index at or after `from` whose line equals `target`, or the number
/// of lines if none does.
pub open spec fn find_line(lines: Seq<Seq<char>>, from: int, target: Seq<char>) -> int
    decreases lines.len() - from,
{
    if from < 0 || from >= lines.len() {
        lines.len() as int
    } else if lines[from] == target {
        from
    } else {
        find_line(lines, from + 1, target)
    }
}

pub proof fn lemma_find_line(lines: Seq<Seq<char>>, from: int, target: Seq<char>)
    requires
        0 <= from <= lines.len(),
    ensures
        from <= find_line(lines, from, target) <= lines.len(),
        forall|j: int| from <= j < find_line(lines, from, target) ==> lines[j] != target,
        find_line(lines, from, target) < lines.len() ==> lines[find_line(lines, from, target)]
            == target,
    decreases lines.len() - from,
{
    if from >= lines.len() {
    } else if lines[from] == target {
    } else {
        lemma_find_line(lines, from + 1, target);
    }
}

pub proof fn lemma_find_line_is(lines: Seq<Seq<char>>, from: int, target: Seq<char>, m: int)
    requires
        0 <= from <= m <= lines.len(),
        forall|j: int| from <= j < m ==> lines[j] != target,
        m < lines.len() ==> lines[m] == target,
    ensures
        find_line(lines, from, target) == m,
    decreases m - from,
{
    if from == m {
    } else {
        lemma_find_line_is(lines, from + 1, target, m);
    }
}

/// The value of a vector of lines: each line as its character sequence.
pub open spec fn lines_view(ls: Seq<Vec<char>>) -> Seq<Seq<char>> {
    ls.map_values(|l: Vec<char>| l@)
}

/// The lines of `chars`, split as `split_lines` describes.
pub fn split_lines_exec(chars: &Vec<char>) -> (r: Vec<Vec<char>>)
    ensures
        lines_view(r@) == split_lines(chars@),
{
    let n = chars.len();
    let mut lines: Vec<Vec<char>> = Vec::new();
    let mut pos: usize = 0;
    proof {
        assert(chars@.skip(0) =~= chars@);
        assert(lines_view(lines@) =~= Seq::<Seq<char>>::empty());
        assert(lines_view(lines@) + split_lines(chars@.skip(0)) =~= split_lines(chars@));
    }
    while pos < n
        invariant
            pos <= n,
            n == chars@.len(),
            split_lines(chars@) =~= lines_view(lines@) + split_lines(chars@.skip(pos as int)),
        decreases n - pos,
    {
        let mut j: usize = pos;
        while j < n && chars[j] != '\n'
            invariant
                pos <= j <= n,
                n == chars@.len(),
                forall|k: int| pos <= k < j ==> chars@[k] != '\n',
            decreases n - j,
        {
            j = j + 1;
        }
        let line = chars_range(chars, pos, j);
        proof {
            let rem = chars@.skip(pos as int);
            assert forall|k: int| 0 <= k < j - pos implies rem[k] != '\n' by {
                assert(rem[k] == chars@[k + pos]);
            }
            if j < n {
                assert(rem[j - pos] == chars@[j as int]);
            }
            lemma_first_nl_is(rem, j - pos);
            assert(lines_view(lines@.push(line)) =~= lines_view(lines@) + seq![line@]);
            if j < n {
                assert(rem.take(j - pos) =~= line@);
                assert(rem.skip(j - pos + 1) =~= chars@.skip(j + 1));
                assert(split_lines(rem) == seq![line@] + split_lines(chars@.skip(j + 1)));
                assert(lines_view(lines@) + split_lines(rem) =~= lines_view(lines@.push(line))
                    + split_lines(chars@.skip(j + 1)));
            } else {
                assert(rem =~= line@);
                assert(split_lines(rem) == seq![line@]);
                assert(chars@.skip(n as int).len() == 0);
                assert(split_lines(chars@.skip(n as int)) == Seq::<Seq<char>>::empty());
                assert(lines_view(lines@) + split_lines(rem) =~= lines_view(lines@.push(line))
                    + split_lines(chars@.skip(n as int)));
            }
        }
        lines.push(line);
        if j < n {
            pos = j + 1;
        } else {
            pos = n;
        }
    }
    proof {
        assert(chars@.skip(n as int).len() == 0);
        assert(split_lines(chars@.skip(n as int)) == Seq::<Seq<char>>::empty());
        assert(lines_view(lines@) + split_lines(chars@.skip(n as int)) =~= lines_view(lines@));
    }
    lines
}

/// First line at or after `from` that equals `target`, as `find_line`.
pub fn find_line_exec(lines: &Vec<Vec<char>>, from: usize, target: &str) -> (r: usize)
    requires
        from <= lines@.len(),
    ensures
        r == find_line(lines_view(lines@), from as int, target@),
        r <= lines@.len(),
{
    let n = lines.len();
    let mut i: usize = from;
    while i < n
        invariant
            from <= i <= n,
            n == lines@.len(),
            forall|j: int| from <= j < i ==> lines_view(lines@)[j] != target@,
        decreases n - i,
    {
        if line_eq_str(&lines[i], target) {
            proof {
                assert(lines_view(lines@)[i as int] == target@);
                lemma_find_line_is(lines_view(lines@), from as int, target@, i as int);
            }
            return i;
        }
        proof {
            assert(lines_view(lines@)[i as int] == lines@[i as int]@);
        }
        i = i + 1;
    }
    proof {
        lemma_find_line_is(lines_view(lines@), from as int, target@, n as int);
    }
    n
}

/// The characters of `s`, as a vector.
pub fn str_to_chars(s: &str) -> (r: Vec<char>)
    ensures
        r@ == s@,
{
    let n = s.unicode_len();
    let mut v: Vec<char> = Vec::new();
    let mut i: usize = 0;
    while i < n
        invariant
            i <= n,
            n == s@.len(),
            v@ =~= s@.take(i as int),
        decreases n - i,
    {
        v.push(s.get_char(i));
        assert(v@ =~= s@.take(i + 1));
        i = i + 1;
    }
    proof {
        assert(s@.take(n as int) =~= s@);
    }
    v
}

/// Relies on `String::push`: appends exactly the given character at the
/// end of the string.
#[verifier::external_body]
pub fn push_char(s: &mut String, c: char)
    ensures
        final(s)@ == old(s)@.push(c),
{
    s.push(c);
}

/// Relies on `String::pop`: removes and returns the last character, or
/// returns nothing and changes nothing when the string is empty.
#[verifier::external_body]
pub fn pop_char(s: &mut String) -> (r: Option<char>)
    ensures
        old(s)@.len() == 0 ==> final(s)@ == old(s)@ && r is None,
        old(s)@.len() > 0 ==> final(s)@ == old(s)@.drop_last() && r == Some(old(s)@.last()),
{
    s.pop()
}

/// A string holding exactly the given characters.
pub fn chars_to_string(v: &Vec<char>) -> (r: String)
    ensures
        r@ == v@,
{
    let mut s = String::new();
    let mut i: usize = 0;
    while i < v.len()
        invariant
            i <= v@.len(),
            s@ =~= v@.take(i as int),
        decreases v@.len() - i,
    {
        push_char(&mut s, v[i]);
        assert(s@ =~= v@.take(i + 1));
        i = i + 1;
    }
    proof {
        assert(v@.take(v@.len() as int) =~= v@);
    }
    s
}

/// Appends the characters of `s` to `out`.
pub fn push_str_chars(out: &mut Vec<char>, s: &str)
    ensures
        final(out)@ == old(out)@ + s@,
{
    let n = s.unicode_len();
    let mut i: usize = 0;
    while i < n
        invariant
            i <= n,
            n == s@.len(),
            out@ =~= old(out)@ + s@.take(i as int),
        decreases n - i,
    {
        let c = s.get_char(i);
        out.push(c);
        assert(out@ =~= old(out)@ + s@.take(i + 1));
        i = i + 1;
    }
    proof {
        assert(old(out)@ + s@.take(n as int) =~= old(out)@ + s@);
    }
}

/// Whether a line, held as characters, equals a string.
pub fn line_eq_str(line: &Vec<char>, s: &str) -> (r: bool)
    ensures
        r == (line@ == s@),
{
    let n = s.unicode_len();
    if line.len() != n {
        return false;
    }
    let mut i: usize = 0;
    while i < n
        invariant
            i <= n,
            n == s@.len(),
            line@.len() == n,
            forall|j: int| 0 <= j < i ==> line@[j] == s@[j],
        decreases n - i,
    {
        if line[i] != s.get_char(i) {
            return false;
        }
        i = i + 1;
    }
    proof {
        assert(line@ =~= s@);
    }
    true
}

/// The characters of `v` from `a` (inclusive) to `b` (exclusive).
pub fn chars_range(v: &Vec<char>, a: usize, b: usize) -> (r: Vec<char>)
    requires
        a <= b <= v@.len(),
    ensures
        r@ == v@.subrange(a as int, b as int),
{
    let mut out: Vec<char> = Vec::new();
    let mut i: usize = a;
    while i < b
        invariant
            a <= i <= b <= v@.len(),
            out@ =~= v@.subrange(a as int, i as int),
        decreases b - i,
    {
        out.push(v[i]);
        assert(out@ =~= v@.subrange(a as int, i + 1));
        i = i + 1;
    }
    out
}

} // verus!
