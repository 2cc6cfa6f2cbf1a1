//! The block codec: locating the managed region of a hosts document,
//! reading its entry lines as domains, and regenerating the document with a
//! fresh region while leaving every other line untouched.
//!
//! The managed region is delimited by a start-marker line and an
//! end-marker line. A document without a well-formed pair of markers has an
//! empty region: this is a deliberate tolerance, not an error, so that a
//! fresh file simply holds no domains yet. A region line that does not
//! split into at least two whitespace-separated tokens is a fatal
//! `MalformedEntry`, because ignoring such a line would silently drop it on
//! the next save.

use vstd::prelude::*;

use crate::domain::{doms_view, wf_domain, wf_domains, Domain, DomainStatus, DomainView};
use crate::text::{
    chars_range, chars_to_string, find_line, find_line_exec, is_space, is_space_char, join_lines,
    lemma_split_ws_skip_spaces, lemma_token_len_is, lines_view, nl_free, split_lines,
    split_lines_exec, split_ws, str_to_chars, token_len,
};

verus! {

/// The one structured failure of the codec: a region line with fewer than
/// two whitespace-separated tokens.
#[derive(Clone, Copy, PartialEq, Eq, Structural, Debug)]
pub enum ParseError {
    MalformedEntry,
}

/// The line that opens the managed region.
pub open spec fn start_marker() -> Seq<char> {
    "### HostBlock"@
}

/// The line that closes the managed region.
pub open spec fn end_marker() -> Seq<char> {
    "### End HostBlock"@
}

/// The address-and-separator prefix written before every domain name.
pub open spec fn addr_prefix() -> Seq<char> {
    "127.0.0.1\t"@
}

/// Reading one region line: at least two tokens, or a fatal error. The
/// first token is the address, of which only a leading `#` matters (it
/// marks the entry unblocked); the second token is the domain name; any
/// further tokens are ignored.
pub open spec fn parse_entry(line: Seq<char>) -> Result<DomainView, ParseError> {
    let toks = split_ws(line);
    if toks.len() < 2 {
        Err(ParseError::MalformedEntry)
    } else {
        Ok(
            DomainView {
                url: toks[1],
                status: if toks[0][0] == '#' {
                    DomainStatus::Unblocked
                } else {
                    DomainStatus::Blocked
                },
            },
        )
    }
}

/// Reading a whole region, line by line, failing on the first bad line.
pub open spec fn parse_region(lines: Seq<Seq<char>>) -> Result<Seq<DomainView>, ParseError>
    decreases lines.len(),
{
    if lines.len() == 0 {
        Ok(Seq::empty())
    } else {
        match parse_entry(lines[0]) {
            Err(e) => Err(e),
            Ok(d) => match parse_region(lines.skip(1)) {
                Err(e) => Err(e),
                Ok(ds) => Ok(seq![d] + ds),
            },
        }
    }
}

/// The lines strictly between the first start-marker line and the first
/// end-marker line after it; empty when either marker is missing.
pub open spec fn region_of(lines: Seq<Seq<char>>) -> Seq<Seq<char>> {
    let s = find_line(lines, 0, start_marker());
    if s == lines.len() {
        Seq::empty()
    } else {
        let e = find_line(lines, s + 1, end_marker());
        if e == lines.len() {
            Seq::empty()
        } else {
            lines.subrange(s + 1, e)
        }
    }
}

/// What parsing a document yields.
pub open spec fn parse_spec(doc: Seq<char>) -> Result<Seq<DomainView>, ParseError> {
    parse_region(region_of(split_lines(doc)))
}

/// The text written for one domain: an optional comment mark, the fixed
/// loopback address, a tab, and the name.
pub open spec fn entry_line(d: DomainView) -> Seq<char> {
    (if d.status is Unblocked {
        seq!['#']
    } else {
        Seq::<char>::empty()
    }) + addr_prefix() + d.url
}

/// The lines kept verbatim before the regenerated region: everything
/// strictly before the first start-marker line, or the whole document when
/// there is none. A dangling start marker (one with no end marker after
/// it) is dropped together with what follows it: the fresh region takes
/// its place.
pub open spec fn before_lines(lines: Seq<Seq<char>>) -> Seq<Seq<char>> {
    let s = find_line(lines, 0, start_marker());
    if s == lines.len() {
        lines
    } else {
        lines.take(s)
    }
}

/// The lines kept verbatim after the regenerated region: everything
/// strictly after the end marker, or nothing when a marker is missing.
pub open spec fn after_lines(lines: Seq<Seq<char>>) -> Seq<Seq<char>> {
    let s = find_line(lines, 0, start_marker());
    if s == lines.len() {
        Seq::empty()
    } else {
        let e = find_line(lines, s + 1, end_marker());
        if e == lines.len() {
            Seq::empty()
        } else {
            lines.skip(e + 1)
        }
    }
}

/// The lines of the regenerated document.
pub open spec fn out_lines(lines: Seq<Seq<char>>, ds: Seq<DomainView>) -> Seq<Seq<char>> {
    before_lines(lines) + seq![start_marker()] + ds.map_values(|d: DomainView| entry_line(d))
        + seq![end_marker()] + after_lines(lines)
}

/// What serializing a domain list into a document yields: the kept lines
/// around a fresh region, each line closed by a newline.
pub open spec fn serialize_spec(doc: Seq<char>, ds: Seq<DomainView>) -> Seq<char> {
    join_lines(out_lines(split_lines(doc), ds))
}

/// Reads one region line, as `parse_entry` describes.
fn parse_entry_exec(line: &Vec<char>) -> (r: Result<Domain, ParseError>)
    ensures
        match r {
            Ok(d) => parse_entry(line@) == Ok::<DomainView, ParseError>(d@),
            Err(e) => parse_entry(line@) == Err::<DomainView, ParseError>(e),
        },
{
    let n = line.len();
    let mut a1: usize = 0;
    while a1 < n && is_space_char(line[a1])
        invariant
            a1 <= n,
            n == line@.len(),
            forall|j: int| 0 <= j < a1 ==> is_space(line@[j]),
        decreases n - a1,
    {
        a1 = a1 + 1;
    }
    proof {
        lemma_split_ws_skip_spaces(line@, a1 as int);
    }
    if a1 == n {
        proof {
            assert(line@.skip(n as int).len() == 0);
            assert(split_ws(line@).len() == 0);
        }
        return Err(ParseError::MalformedEntry);
    }
    let mut b1: usize = a1;
    while b1 < n && !is_space_char(line[b1])
        invariant
            a1 <= b1 <= n,
            n == line@.len(),
            forall|j: int| a1 <= j < b1 ==> !is_space(line@[j]),
        decreases n - b1,
    {
        b1 = b1 + 1;
    }
    let ghost s1 = line@.skip(a1 as int);
    proof {
        assert forall|j: int| 0 <= j < b1 - a1 implies !is_space(s1[j]) by {
            assert(s1[j] == line@[j + a1]);
        }
        if b1 < n {
            assert(s1[b1 - a1] == line@[b1 as int]);
        }
        lemma_token_len_is(s1, b1 - a1 as int);
    }
    let mut a2: usize = b1;
    while a2 < n && is_space_char(line[a2])
        invariant
            b1 <= a2 <= n,
            n == line@.len(),
            forall|j: int| b1 <= j < a2 ==> is_space(line@[j]),
        decreases n - a2,
    {
        a2 = a2 + 1;
    }
    let ghost tok1 = line@.subrange(a1 as int, b1 as int);
    proof {
        if b1 == n {
            assert(token_len(s1) == s1.len());
            assert(split_ws(s1) == seq![s1]);
            assert(tok1 =~= s1);
        } else {
            assert(s1.take(b1 - a1 as int) =~= tok1);
            assert(s1.skip(b1 - a1 as int) =~= line@.skip(b1 as int));
            assert(split_ws(s1) == seq![tok1] + split_ws(line@.skip(b1 as int)));
            let s2 = line@.skip(b1 as int);
            assert forall|j: int| 0 <= j < a2 - b1 implies is_space(s2[j]) by {
                assert(s2[j] == line@[j + b1]);
            }
            lemma_split_ws_skip_spaces(s2, a2 - b1 as int);
            assert(s2.skip(a2 - b1 as int) =~= line@.skip(a2 as int));
        }
    }
    if a2 == n {
        proof {
            if b1 < n {
                assert(line@.skip(n as int).len() == 0);
                assert(split_ws(line@.skip(a2 as int)).len() == 0);
                assert(split_ws(line@) =~= seq![tok1]);
            }
            assert(split_ws(line@).len() == 1);
        }
        return Err(ParseError::MalformedEntry);
    }
    let mut b2: usize = a2;
    while b2 < n && !is_space_char(line[b2])
        invariant
            a2 <= b2 <= n,
            n == line@.len(),
            forall|j: int| a2 <= j < b2 ==> !is_space(line@[j]),
        decreases n - b2,
    {
        b2 = b2 + 1;
    }
    let ghost s3 = line@.skip(a2 as int);
    let ghost tok2 = line@.subrange(a2 as int, b2 as int);
    proof {
        assert forall|j: int| 0 <= j < b2 - a2 implies !is_space(s3[j]) by {
            assert(s3[j] == line@[j + a2]);
        }
        if b2 < n {
            assert(s3[b2 - a2] == line@[b2 as int]);
        }
        lemma_token_len_is(s3, b2 - a2 as int);
        if b2 == n {
            assert(token_len(s3) == s3.len());
            assert(split_ws(s3) == seq![s3]);
            assert(tok2 =~= s3);
            assert(split_ws(s3) == seq![tok2]);
        } else {
            assert(s3.take(b2 - a2 as int) =~= tok2);
            assert(split_ws(s3) == seq![tok2] + split_ws(s3.skip(b2 - a2 as int)));
        }
        assert(split_ws(line@) == seq![tok1] + split_ws(s3));
        assert(split_ws(line@)[0] == tok1);
        assert(split_ws(line@)[1] == tok2);
        assert(split_ws(line@).len() >= 2);
        assert(tok1[0] == line@[a1 as int]);
    }
    let url_chars = chars_range(line, a2, b2);
    let url = chars_to_string(&url_chars);
    let status = if line[a1] == '#' {
        DomainStatus::Unblocked
    } else {
        DomainStatus::Blocked
    };
    Ok(Domain { url, status })
}

/// Extracts the domain list from the managed region of `document`.
///
/// A missing marker pair yields an empty list; a region line with fewer
/// than two tokens aborts the whole parse with `MalformedEntry`.
pub fn parse(document: &str) -> (r: Result<Vec<Domain>, ParseError>)
    ensures
        match r {
            Ok(ds) => parse_spec(document@) == Ok::<Seq<DomainView>, ParseError>(doms_view(ds@)),
            Err(e) => parse_spec(document@) == Err::<Seq<DomainView>, ParseError>(e),
        },
{
    let chars = str_to_chars(document);
    let lines = split_lines_exec(&chars);
    let nlines = lines.len();
    let start = find_line_exec(&lines, 0, "### HostBlock");
    if start == nlines {
        proof {
            assert(region_of(lines_view(lines@)) =~= Seq::<Seq<char>>::empty());
            assert(doms_view(Seq::<Domain>::empty()) =~= Seq::<DomainView>::empty());
        }
        return Ok(Vec::new());
    }
    let end = find_line_exec(&lines, start + 1, "### End HostBlock");
    proof {
        crate::text::lemma_find_line(lines_view(lines@), start + 1, end_marker());
    }
    if end == nlines {
        proof {
            assert(region_of(lines_view(lines@)) =~= Seq::<Seq<char>>::empty());
            assert(doms_view(Seq::<Domain>::empty()) =~= Seq::<DomainView>::empty());
        }
        return Ok(Vec::new());
    }
    let ghost region = region_of(lines_view(lines@));
    proof {
        assert(region =~= lines_view(lines@).subrange(start + 1, end as int));
    }
    let mut out: Vec<Domain> = Vec::new();
    let mut i: usize = start + 1;
    proof {
        assert(region.skip(0) =~= region);
        if parse_region(region) is Ok {
            let whole = parse_region(region)->Ok_0;
            assert(doms_view(out@) + whole =~= whole);
        }
    }
    while i < end
        invariant
            start + 1 <= i <= end <= lines@.len(),
            lines_view(lines@) == split_lines(document@),
            region == region_of(lines_view(lines@)),
            region == lines_view(lines@).subrange(start + 1, end as int),
            parse_region(region) == match parse_region(region.skip(i - (start + 1))) {
                Ok(rest) => Ok::<Seq<DomainView>, ParseError>(doms_view(out@) + rest),
                Err(e) => Err::<Seq<DomainView>, ParseError>(e),
            },
        decreases end - i,
    {
        let ghost k = i - (start + 1);
        let ghost rem = region.skip(k);
        proof {
            assert(rem[0] == region[k]);
            assert(region[k] == lines_view(lines@)[i as int]);
            assert(lines_view(lines@)[i as int] == lines@[i as int]@);
        }
        match parse_entry_exec(&lines[i]) {
            Err(e) => {
                proof {
                    assert(parse_region(rem) == Err::<Seq<DomainView>, ParseError>(e));
                }
                return Err(e);
            },
            Ok(d) => {
                proof {
                    assert(rem.skip(1) =~= region.skip(k + 1));
                    assert(doms_view(out@.push(d)) =~= doms_view(out@) + seq![d@]);
                    if parse_region(region.skip(k + 1)) is Ok {
                        let rest = parse_region(region.skip(k + 1))->Ok_0;
                        assert(parse_region(rem) == Ok::<Seq<DomainView>, ParseError>(
                            seq![d@] + rest,
                        ));
                        assert(doms_view(out@) + (seq![d@] + rest) =~= doms_view(out@.push(d))
                            + rest);
                    }
                }
                out.push(d);
            },
        }
        i = i + 1;
    }
    proof {
        assert(region.skip(end - (start + 1)).len() == 0);
        assert(parse_region(region.skip(end - (start + 1))) == Ok::<Seq<DomainView>, ParseError>(
            Seq::empty(),
        ));
        assert(doms_view(out@) + Seq::<DomainView>::empty() =~= doms_view(out@));
    }
    Ok(out)
}

/// Appends one line and a closing newline to `out`.
fn push_line_chars(out: &mut Vec<char>, line: &Vec<char>)
    ensures
        final(out)@ == old(out)@ + line@ + seq!['\n'],
{
    let mut i: usize = 0;
    let n = line.len();
    while i < n
        invariant
            i <= n,
            n == line@.len(),
            out@ =~= old(out)@ + line@.take(i as int),
        decreases n - i,
    {
        out.push(line[i]);
        assert(out@ =~= old(out)@ + line@.take(i + 1));
        i = i + 1;
    }
    out.push('\n');
    proof {
        assert(out@ =~= old(out)@ + line@ + seq!['\n']);
    }
}

/// Regenerates `original` with a fresh managed region holding exactly
/// `domains`, in order; every line outside the region is kept verbatim.
pub fn serialize(original: &str, domains: &Vec<Domain>) -> (r: String)
    ensures
        r@ == serialize_spec(original@, doms_view(domains@)),
{
    let chars = str_to_chars(original);
    let lines = split_lines_exec(&chars);
    let nlines = lines.len();
    let start = find_line_exec(&lines, 0, "### HostBlock");
    let before_end: usize;
    let after_start: usize;
    if start == nlines {
        before_end = nlines;
        after_start = nlines;
    } else {
        let end = find_line_exec(&lines, start + 1, "### End HostBlock");
        before_end = start;
        if end == nlines {
            after_start = nlines;
        } else {
            after_start = end + 1;
        }
    }
    let ghost all = lines_view(lines@);
    let ghost before = before_lines(all);
    let ghost entries = doms_view(domains@).map_values(|d: DomainView| entry_line(d));
    let ghost after = after_lines(all);
    proof {
        assert(before =~= all.subrange(0, before_end as int));
        assert(after =~= all.subrange(after_start as int, all.len() as int));
    }
    let mut out: Vec<char> = Vec::new();
    let mut i: usize = 0;
    proof {
        crate::text::lemma_join_lines_concat(Seq::empty(), Seq::empty());
        assert(before.take(0) =~= Seq::<Seq<char>>::empty());
        assert(out@ =~= join_lines(before.take(0)));
    }
    while i < before_end
        invariant
            i <= before_end <= lines@.len(),
            all == lines_view(lines@),
            before == before_lines(all),
            before =~= all.subrange(0, before_end as int),
            out@ == join_lines(before.take(i as int)),
        decreases before_end - i,
    {
        push_line_chars(&mut out, &lines[i]);
        proof {
            assert(before.take(i + 1) =~= before.take(i as int) + seq![lines@[i as int]@]);
            crate::text::lemma_join_lines_concat(before.take(i as int), seq![lines@[i as int]@]);
            crate::text::lemma_join_single(lines@[i as int]@);
        }
        i = i + 1;
    }
    proof {
        assert(before.take(before_end as int) =~= before);
    }
    crate::text::push_str_chars(&mut out, "### HostBlock");
    out.push('\n');
    let ghost head = before + seq![start_marker()];
    proof {
        crate::text::lemma_join_lines_concat(before, seq![start_marker()]);
        crate::text::lemma_join_single(start_marker());
        assert(out@ =~= join_lines(head));
    }
    let mut k: usize = 0;
    let nd = domains.len();
    while k < nd
        invariant
            k <= nd,
            nd == domains@.len(),
            entries == doms_view(domains@).map_values(|d: DomainView| entry_line(d)),
            out@ == join_lines(head + entries.take(k as int)),
        decreases nd - k,
    {
        let d = &domains[k];
        if d.status == DomainStatus::Unblocked {
            out.push('#');
        }
        crate::text::push_str_chars(&mut out, "127.0.0.1\t");
        crate::text::push_str_chars(&mut out, d.url.as_str());
        out.push('\n');
        proof {
            assert(entries[k as int] == entry_line(domains@[k as int]@));
            assert(out@ =~= join_lines(head + entries.take(k as int)) + (entry_line(
                domains@[k as int]@,
            ) + seq!['\n']));
            assert(head + entries.take(k + 1) =~= (head + entries.take(k as int)) + seq![
                entries[k as int],
            ]);
            crate::text::lemma_join_lines_concat(
                head + entries.take(k as int),
                seq![entries[k as int]],
            );
            crate::text::lemma_join_single(entries[k as int]);
        }
        k = k + 1;
    }
    proof {
        assert(entries.take(nd as int) =~= entries);
    }
    crate::text::push_str_chars(&mut out, "### End HostBlock");
    out.push('\n');
    let ghost head2 = head + entries + seq![end_marker()];
    proof {
        crate::text::lemma_join_lines_concat(head + entries, seq![end_marker()]);
        crate::text::lemma_join_single(end_marker());
        assert(out@ =~= join_lines(head2));
    }
    let mut j: usize = after_start;
    while j < nlines
        invariant
            after_start <= j <= nlines,
            nlines == lines@.len(),
            all == lines_view(lines@),
            after =~= all.subrange(after_start as int, all.len() as int),
            head2 == head + entries + seq![end_marker()],
            out@ == join_lines(head2 + after.take(j - after_start)),
        decreases nlines - j,
    {
        push_line_chars(&mut out, &lines[j]);
        proof {
            assert(after[j - after_start] == lines@[j as int]@);
            assert(head2 + after.take(j + 1 - after_start) =~= (head2 + after.take(
                j - after_start,
            )) + seq![lines@[j as int]@]);
            crate::text::lemma_join_lines_concat(
                head2 + after.take(j - after_start),
                seq![lines@[j as int]@],
            );
            crate::text::lemma_join_single(lines@[j as int]@);
        }
        j = j + 1;
    }
    proof {
        assert(after.take(nlines - after_start) =~= after);
        assert(head2 + after =~= out_lines(all, doms_view(domains@)));
    }
    chars_to_string(&out)
}

/// Concrete facts about the marker lines and the address prefix.
proof fn lemma_markers()
    ensures
        start_marker().len() == 13,
        end_marker().len() == 17,
        addr_prefix().len() == 10,
        nl_free(start_marker()),
        nl_free(end_marker()),
        start_marker()[0] == '#',
        start_marker()[1] == '#',
        end_marker()[0] == '#',
        end_marker()[1] == '#',
        addr_prefix()[0] == '1',
        is_space(addr_prefix()[9]),
        forall|j: int| 0 <= j < 9 ==> !is_space(addr_prefix()[j]),
        forall|j: int| 0 <= j < 10 ==> addr_prefix()[j] != '\n',
{
    reveal_strlit("### HostBlock");
    reveal_strlit("### End HostBlock");
    reveal_strlit("127.0.0.1\t");
}

/// The written line of a well-formed domain is newline-free, is neither
/// marker line, and parses back to exactly that domain.
proof fn lemma_entry_line(d: DomainView)
    requires
        wf_domain(d),
    ensures
        nl_free(entry_line(d)),
        entry_line(d) != start_marker(),
        entry_line(d) != end_marker(),
        parse_entry(entry_line(d)) == Ok::<DomainView, ParseError>(d),
{
    lemma_markers();
    let line = entry_line(d);
    let url = d.url;
    let pre: int = if d.status is Unblocked {
        1
    } else {
        0
    };
    assert(line.len() == pre + 10 + url.len());
    assert forall|j: int| 0 <= j < line.len() implies line[j] != '\n' by {
        if j < pre {
            assert(line[j] == '#');
        } else if j < pre + 10 {
            assert(line[j] == addr_prefix()[j - pre]);
        } else {
            assert(line[j] == url[j - pre - 10]);
            assert(!is_space(url[j - pre - 10]));
        }
    }
    if d.status is Unblocked {
        assert(line[1] == addr_prefix()[0]);
        assert(line[1] != start_marker()[1]);
        assert(line[1] != end_marker()[1]);
    } else {
        assert(line[0] == addr_prefix()[0]);
        assert(line[0] != start_marker()[0]);
        assert(line[0] != end_marker()[0]);
    }
    // token analysis: the first token is the address, the second the name
    let t1: int = pre + 9;
    assert forall|j: int| 0 <= j < t1 implies !is_space(line[j]) by {
        if j < pre {
            assert(line[j] == '#');
        } else {
            assert(line[j] == addr_prefix()[j - pre]);
        }
    }
    assert(line[t1] == addr_prefix()[9]);
    lemma_token_len_is(line, t1);
    assert(!is_space(line[0]));
    assert(t1 < line.len());
    let rest = line.skip(t1);
    assert(split_ws(line) == seq![line.take(t1)] + split_ws(rest));
    assert(is_space(rest[0]));
    assert(rest.skip(1) =~= url);
    assert(split_ws(rest) == split_ws(url));
    assert forall|j: int| 0 <= j < url.len() implies !is_space(url[j]) by {}
    lemma_token_len_is(url, url.len() as int);
    assert(url.len() > 0);
    assert(!is_space(url[0]));
    assert(split_ws(url) == seq![url]);
    let toks = split_ws(line);
    assert(toks =~= seq![line.take(t1), url]);
    assert(toks.len() == 2);
    assert(toks[1] == url);
    assert(toks[0][0] == line[0]);
    if d.status is Unblocked {
        assert(line[0] == '#');
        assert(parse_entry(line) == Ok::<DomainView, ParseError>(
            DomainView { url, status: DomainStatus::Unblocked },
        ));
    } else {
        assert(line[0] == addr_prefix()[0]);
        assert(line[0] != '#');
        assert(parse_entry(line) == Ok::<DomainView, ParseError>(
            DomainView { url, status: DomainStatus::Blocked },
        ));
    }
}

/// A region written for a well-formed list reads back as exactly that list.
proof fn lemma_parse_region_entries(ds: Seq<DomainView>)
    requires
        wf_domains(ds),
    ensures
        parse_region(ds.map_values(|d: DomainView| entry_line(d))) == Ok::<
            Seq<DomainView>,
            ParseError,
        >(ds),
    decreases ds.len(),
{
    let entries = ds.map_values(|d: DomainView| entry_line(d));
    if ds.len() == 0 {
        assert(entries.len() == 0);
        assert(parse_region(entries) == Ok::<Seq<DomainView>, ParseError>(Seq::empty()));
        assert(Seq::<DomainView>::empty() =~= ds);
    } else {
        lemma_entry_line(ds[0]);
        assert(entries[0] == entry_line(ds[0]));
        assert(wf_domains(ds.skip(1))) by {
            assert(forall|i: int|
                0 <= i < ds.skip(1).len() ==> #[trigger] ds.skip(1)[i] == ds[i + 1]);
        }
        lemma_parse_region_entries(ds.skip(1));
        assert(entries.skip(1) =~= ds.skip(1).map_values(|d: DomainView| entry_line(d)));
        assert(parse_region(entries.skip(1)) == Ok::<Seq<DomainView>, ParseError>(ds.skip(1)));
        assert(seq![ds[0]] + ds.skip(1) =~= ds);
    }
}

/// Every list that a successful parse yields is well-formed: each name is a
/// token, so it is non-empty and free of whitespace.
proof fn lemma_parse_region_wf(lines: Seq<Seq<char>>)
    ensures
        parse_region(lines) is Ok ==> wf_domains(parse_region(lines)->Ok_0),
    decreases lines.len(),
{
    if lines.len() == 0 {
    } else if parse_region(lines) is Ok {
        crate::text::lemma_split_ws_tokens(lines[0]);
        lemma_parse_region_wf(lines.skip(1));
        let d = parse_entry(lines[0])->Ok_0;
        let rest = parse_region(lines.skip(1))->Ok_0;
        let whole = parse_region(lines)->Ok_0;
        assert(whole == seq![d] + rest);
        assert(wf_domain(d)) by {
            let toks = split_ws(lines[0]);
            assert(toks[1].len() > 0);
            assert(forall|j: int| 0 <= j < toks[1].len() ==> !is_space(#[trigger] toks[1][j]));
        }
        assert forall|i: int| 0 <= i < whole.len() implies wf_domain(#[trigger] whole[i]) by {
            if i > 0 {
                assert(whole[i] == rest[i - 1]);
            }
        }
    }
}

/// A parsed list is well-formed.
pub proof fn lemma_parse_wf(doc: Seq<char>)
    ensures
        parse_spec(doc) is Ok ==> wf_domains(parse_spec(doc)->Ok_0),
{
    lemma_parse_region_wf(region_of(split_lines(doc)));
}

/// Round trip: serializing any well-formed domain list into any document
/// and parsing the result yields exactly that list, in order, with each
/// name and status unchanged.
pub proof fn lemma_round_trip(doc: Seq<char>, ds: Seq<DomainView>)
    requires
        wf_domains(ds),
    ensures
        parse_spec(serialize_spec(doc, ds)) == Ok::<Seq<DomainView>, ParseError>(ds),
{
    lemma_markers();
    let lines = split_lines(doc);
    let before = before_lines(lines);
    let after = after_lines(lines);
    let entries = ds.map_values(|d: DomainView| entry_line(d));
    let out = out_lines(lines, ds);
    let b = before.len() as int;
    let nd = ds.len() as int;
    crate::text::lemma_split_lines_nl_free(doc);
    crate::text::lemma_find_line(lines, 0, start_marker());
    let sm = find_line(lines, 0, start_marker());
    if sm < lines.len() {
        crate::text::lemma_find_line(lines, sm + 1, end_marker());
    }
    // every line of the output is newline-free
    assert forall|i: int| 0 <= i < out.len() implies nl_free(#[trigger] out[i]) by {
        if i < b {
            assert(out[i] == before[i]);
            assert(before[i] == lines[i]);
        } else if i == b {
            assert(out[i] == start_marker());
        } else if i < b + 1 + nd {
            assert(out[i] == entries[i - b - 1]);
            lemma_entry_line(ds[i - b - 1]);
        } else if i == b + 1 + nd {
            assert(out[i] == end_marker());
        } else {
            assert(out[i] == after[i - (b + 2 + nd)]);
            let s = find_line(lines, 0, start_marker());
            if s < lines.len() {
                let e = find_line(lines, s + 1, end_marker());
                if e < lines.len() {
                    assert(after[i - (b + 2 + nd)] == lines[e + 1 + i - (b + 2 + nd)]);
                }
            }
        }
    }
    crate::text::lemma_split_join(out);
    // the start marker of the output is the one just written
    assert forall|j: int| 0 <= j < b implies out[j] != start_marker() by {
        assert(out[j] == before[j]);
        if before.len() != lines.len() {
            assert(before[j] == lines[j]);
        }
    }
    assert(out[b] == start_marker());
    crate::text::lemma_find_line_is(out, 0, start_marker(), b);
    // the end marker after it is the one just written
    assert forall|j: int| b + 1 <= j < b + 1 + nd implies out[j] != end_marker() by {
        assert(out[j] == entries[j - b - 1]);
        lemma_entry_line(ds[j - b - 1]);
    }
    assert(out[b + 1 + nd] == end_marker());
    crate::text::lemma_find_line_is(out, b + 1, end_marker(), b + 1 + nd);
    // so the region read back is exactly the entry lines
    assert(region_of(out) =~= entries);
    lemma_parse_region_entries(ds);
}

/// Serialize emits one line per domain, in list order: the k-th line of
/// the fresh region is the written line of the k-th domain.
pub proof fn lemma_serialize_order(doc: Seq<char>, ds: Seq<DomainView>)
    ensures
        forall|k: int|
            0 <= k < ds.len() ==> out_lines(split_lines(doc), ds)[before_lines(
                split_lines(doc),
            ).len() + 1 + k] == entry_line(ds[k]),
{
    let lines = split_lines(doc);
    let before = before_lines(lines);
    let entries = ds.map_values(|d: DomainView| entry_line(d));
    assert forall|k: int| 0 <= k < ds.len() implies out_lines(lines, ds)[before.len() + 1 + k]
        == entry_line(ds[k]) by {
        assert(out_lines(lines, ds)[before.len() + 1 + k] == entries[k]);
    }
}

/// Every line outside the region is kept verbatim and in its original
/// relative order: the output opens with exactly the kept prefix of the
/// original and closes with exactly its kept suffix.
pub proof fn lemma_serialize_keeps_surroundings(doc: Seq<char>, ds: Seq<DomainView>)
    ensures
        forall|k: int|
            0 <= k < before_lines(split_lines(doc)).len() ==> out_lines(split_lines(doc), ds)[k]
                == before_lines(split_lines(doc))[k],
        forall|k: int|
            0 <= k < after_lines(split_lines(doc)).len() ==> out_lines(split_lines(doc), ds)[
                before_lines(split_lines(doc)).len() + 2 + ds.len() + k
            ] == after_lines(split_lines(doc))[k],
{
    let lines = split_lines(doc);
    let before = before_lines(lines);
    let after = after_lines(lines);
    assert forall|k: int| 0 <= k < after.len() implies out_lines(lines, ds)[before.len() + 2
        + ds.len() + k] == after[k] by {
        assert(out_lines(lines, ds).len() == before.len() + 2 + ds.len() + after.len());
    }
}

/// Parsing, serializing what was parsed, and parsing again yields the
/// same domain list as the first parse.
pub proof fn lemma_parse_round_trip(doc: Seq<char>)
    requires
        parse_spec(doc) is Ok,
    ensures
        parse_spec(serialize_spec(doc, parse_spec(doc)->Ok_0)) == parse_spec(doc),
{
    lemma_parse_wf(doc);
    lemma_round_trip(doc, parse_spec(doc)->Ok_0);
}

} // verus!
