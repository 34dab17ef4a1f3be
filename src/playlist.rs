//! The playlist rewriter: every URI that an HLS playlist references, in a
//! URI line or in the `URI` attribute of an `#EXT-X-KEY` tag, is resolved
//! against the playlist's own URL and routed back through the proxy.
use vstd::prelude::*;
use crate::attr::{attr_value_bounds, attr_value_span, lemma_attr_value_bounds};
use crate::text::{
    chars_of, contains, find_first, find_from, find_in, has_prefix, lemma_find_from_bounds, matches_at,
    occurs_at, push_all,
    string_of, trim, trim_bounds,
};
use crate::urls::{url_encoded, url_join, url_parse, encode_component, ParsedUrl};

verus! {

/// Why a playlist could not be rewritten.
#[derive(Debug)]
pub enum RewriteError {
    /// The playlist's own URL does not parse.
    InvalidBase(url::ParseError),
    /// A referenced URI does not resolve against the playlist's URL.
    Unresolvable(url::ParseError),
}

pub open spec fn key_tag() -> Seq<char> {
    "#EXT-X-KEY:"@
}

pub open spec fn uri_attr() -> Seq<char> {
    "URI="@
}

pub open spec fn query_prefix() -> Seq<char> {
    "?url="@
}

/// The proxied form of the absolute URL `abs`:
/// `{origin}{path}?url={percent-encoded abs}`.
pub open spec fn proxied(origin: Seq<char>, path: Seq<char>, abs: Seq<char>) -> Seq<char> {
    origin + path + query_prefix() + url_encoded(abs)
}

/// An `#EXT-X-KEY` line after rewriting, `None` where its URI does not
/// resolve. Without a `URI=` attribute, or with a value that does not
/// parse, the line stays as it is; otherwise only the value changes, and it
/// comes back in double quotes.
pub open spec fn key_line_rewrite(
    line: Seq<char>,
    base: Seq<char>,
    origin: Seq<char>,
    path: Seq<char>,
) -> Option<Seq<char>> {
    match find_first(line, uri_attr()) {
        None => Some(line),
        Some(pos) => {
            let at = pos + uri_attr().len();
            let after = line.subrange(at, line.len() as int);
            match attr_value_bounds(after) {
                None => Some(line),
                Some(b) => match url_join(base, after.subrange(b.0, b.1)) {
                    None => None,
                    Some(abs) => Some(
                        line.subrange(0, at) + seq!['"'] + proxied(origin, path, abs) + seq!['"']
                            + after.subrange(b.2, after.len() as int),
                    ),
                },
            }
        },
    }
}

/// One playlist line after rewriting, `None` where a URI in it does not
/// resolve. Comments, other tags and blank lines stay as they are; a URI
/// line becomes the proxied form of the URI it references.
pub open spec fn line_rewrite(
    line: Seq<char>,
    base: Seq<char>,
    origin: Seq<char>,
    path: Seq<char>,
) -> Option<Seq<char>> {
    if has_prefix(line, key_tag()) {
        key_line_rewrite(line, base, origin, path)
    } else if has_prefix(line, seq!['#']) || trim(line).len() == 0 {
        Some(line)
    } else {
        match url_join(base, trim(line)) {
            None => None,
            Some(abs) => Some(proxied(origin, path, abs)),
        }
    }
}

/// A line without its line break: a `\r` before the `\n` goes too.
pub open spec fn strip_cr(l: Seq<char>) -> Seq<char> {
    if l.len() > 0 && l.last() == '\r' {
        l.drop_last()
    } else {
        l
    }
}

/// The lines of a text, split at `\n`, each without a `\r` that ends it;
/// a final line break starts no further line.
pub open spec fn lines_of(s: Seq<char>) -> Seq<Seq<char>>
    decreases s.len(),
{
    if s.len() == 0 {
        Seq::empty()
    } else {
        let f = find_first(s, seq!['\n']);
        if f is Some && 0 <= f->0 < s.len() {
            seq![strip_cr(s.subrange(0, f->0))] + lines_of(s.subrange(f->0 + 1, s.len() as int))
        } else {
            seq![s]
        }
    }
}

/// The lines joined with `\n` between them.
pub open spec fn join_lines(ls: Seq<Seq<char>>) -> Seq<char>
    decreases ls.len(),
{
    if ls.len() == 0 {
        Seq::empty()
    } else if ls.len() == 1 {
        ls[0]
    } else {
        join_lines(ls.drop_last()) + seq!['\n'] + ls.last()
    }
}

/// The text of lines: their `\n`-join, with one more `\n` where the last
/// line is empty, so that an empty last line is kept.
pub open spec fn text_of_lines(ls: Seq<Seq<char>>) -> Seq<char> {
    if ls.len() > 0 && ls.last().len() == 0 {
        join_lines(ls) + seq!['\n']
    } else {
        join_lines(ls)
    }
}

/// Each line rewritten, in order; `None` where any line fails.
pub open spec fn lines_rewrite(
    ls: Seq<Seq<char>>,
    base: Seq<char>,
    origin: Seq<char>,
    path: Seq<char>,
) -> Option<Seq<Seq<char>>>
    decreases ls.len(),
{
    if ls.len() == 0 {
        Some(Seq::empty())
    } else {
        match lines_rewrite(ls.drop_last(), base, origin, path) {
            None => None,
            Some(done) => match line_rewrite(ls.last(), base, origin, path) {
                None => None,
                Some(l) => Some(done.push(l)),
            },
        }
    }
}

/// The rewritten playlist, `None` where the base does not parse or a line
/// fails.
pub open spec fn playlist_rewrite(
    content: Seq<char>,
    base: Seq<char>,
    origin: Seq<char>,
    path: Seq<char>,
) -> Option<Seq<char>> {
    if url_parse(base) is None {
        None
    } else {
        match lines_rewrite(lines_of(content), base, origin, path) {
            None => None,
            Some(out) => Some(text_of_lines(out)),
        }
    }
}

/// Searching a suffix of `s` finds what searching `s` finds, shifted.
pub proof fn lemma_find_shift(s: Seq<char>, p: Seq<char>, d: int, i: int)
    requires
        0 <= d <= i,
        d <= s.len(),
    ensures
        find_from(s, p, i) == match find_from(s.subrange(d, s.len() as int), p, i - d) {
            Some(k) => Some(k + d),
            None => None,
        },
    decreases s.len() + 1 - i,
{
    let t = s.subrange(d, s.len() as int);
    if i + p.len() <= s.len() {
        assert(s.subrange(i, i + p.len()) =~= t.subrange(i - d, i - d + p.len()));
        if !occurs_at(s, p, i) {
            lemma_find_shift(s, p, d, i + 1);
        }
    }
}

/// `bounds` holds, in order, where each line of `s` lies.
pub open spec fn line_bounds(bounds: Seq<(usize, usize)>, s: Seq<char>) -> bool {
    &&& bounds.len() == lines_of(s).len()
    &&& forall|k: int|
        0 <= k < bounds.len() ==> bounds[k].0 <= bounds[k].1 <= s.len() && #[trigger] lines_of(s)[k]
            == s.subrange(bounds[k].0 as int, bounds[k].1 as int)
}

/// The bounds of the lines of `s`, in order.
pub fn split_lines(s: &[char]) -> (r: Vec<(usize, usize)>)
    ensures
        line_bounds(r@, s@),
{
    let n = s.len();
    let nl = vec!['\n'];
    assert(nl@ =~= seq!['\n']);
    let mut out: Vec<(usize, usize)> = Vec::new();
    let mut pos: usize = 0;
    proof {
        assert(s@.subrange(0, n as int) =~= s@);
        let done = Seq::new(out@.len(), |k: int| s@.subrange(out@[k].0 as int, out@[k].1 as int));
        assert(done + lines_of(s@) =~= lines_of(s@));
    }
    while pos < n
        invariant
            n == s@.len(),
            pos <= n,
            nl@ == seq!['\n'],
            lines_of(s@) == Seq::new(out@.len(), |k: int| s@.subrange(out@[k].0 as int, out@[k].1 as int))
                + lines_of(s@.subrange(pos as int, n as int)),
            forall|k: int| 0 <= k < out@.len() ==> #[trigger] out@[k].0 <= out@[k].1 <= n,
        decreases n - pos,
    {
        let ghost p0 = pos as int;
        let ghost rest = s@.subrange(pos as int, n as int);
        let ghost before = Seq::new(out@.len(), |k: int| s@.subrange(out@[k].0 as int, out@[k].1 as int));
        proof {
            lemma_find_shift(s@, seq!['\n'], pos as int, pos as int);
            lemma_find_from_bounds(s@, seq!['\n'], pos as int);
        }
        match find_in(s, nl.as_slice(), pos) {
            Some(i) => {
                let mut end = i;
                if end > pos && s[end - 1] == '\r' {
                    end = end - 1;
                }
                proof {
                    assert(rest.subrange(0, i - pos) =~= s@.subrange(pos as int, i as int));
                    assert(rest.subrange(i - pos + 1, rest.len() as int) =~= s@.subrange(
                        i + 1,
                        n as int,
                    ));
                    assert(strip_cr(s@.subrange(pos as int, i as int)) =~= s@.subrange(
                        pos as int,
                        end as int,
                    ));
                }
                out.push((pos, end));
                pos = i + 1;
                proof {
                    let after = Seq::new(out@.len(), |k: int| s@.subrange(out@[k].0 as int, out@[k].1 as int));
                    assert(after =~= before.push(s@.subrange(p0, end as int)));
                }
            },
            None => {
                out.push((pos, n));
                pos = n;
                proof {
                    let after = Seq::new(out@.len(), |k: int| s@.subrange(out@[k].0 as int, out@[k].1 as int));
                    assert(after =~= before.push(rest));
                    assert(lines_of(s@.subrange(n as int, n as int)) =~= Seq::<Seq<char>>::empty());
                }
            },
        }
    }
    proof {
        assert(s@.subrange(pos as int, n as int).len() == 0);
        let done = Seq::new(out@.len(), |k: int| s@.subrange(out@[k].0 as int, out@[k].1 as int));
        assert(lines_of(s@) =~= done);
        assert forall|k: int| 0 <= k < out@.len() implies out@[k].0 <= out@[k].1 <= s@.len()
            && #[trigger] lines_of(s@)[k] == s@.subrange(out@[k].0 as int, out@[k].1 as int) by {
            assert(done[k] == s@.subrange(out@[k].0 as int, out@[k].1 as int));
        }
    }
    out
}

/// A copy of `s`.
fn copy_chars(s: &[char]) -> (r: Vec<char>)
    ensures
        r@ == s@,
{
    let mut out: Vec<char> = Vec::new();
    push_all(&mut out, s);
    assert(out@ =~= s@);
    out
}

/// The proxied form of the absolute URL `abs`.
pub fn proxied_url(origin: &[char], path: &[char], abs: &str) -> (r: Vec<char>)
    ensures
        r@ == proxied(origin@, path@, abs@),
{
    let mut out: Vec<char> = Vec::new();
    push_all(&mut out, origin);
    push_all(&mut out, path);
    let q = chars_of("?url=");
    push_all(&mut out, q.as_slice());
    let enc = chars_of(encode_component(abs).as_str());
    push_all(&mut out, enc.as_slice());
    assert(out@ =~= proxied(origin@, path@, abs@));
    out
}

/// Rewrites an `#EXT-X-KEY` line; `Ok(None)` for any other line.
pub fn rewrite_ext_x_key_line(
    line: &[char],
    base: &ParsedUrl,
    origin: &[char],
    path: &[char],
) -> (r: Result<Option<Vec<char>>, RewriteError>)
    ensures
        !has_prefix(line@, key_tag()) ==> r matches Ok(None),
        has_prefix(line@, key_tag()) ==> {
            &&& r is Ok <==> key_line_rewrite(line@, base.source(), origin@, path@) is Some
            &&& r matches Ok(o) ==> o matches Some(v) && key_line_rewrite(
                line@,
                base.source(),
                origin@,
                path@,
            ) == Some(v@)
        },
        r is Err ==> r matches Err(RewriteError::Unresolvable(_)),
{
    let tag = chars_of("#EXT-X-KEY:");
    if !matches_at(line, tag.as_slice(), 0) {
        return Ok(None);
    }
    let uri = chars_of("URI=");
    proof {
        lemma_find_from_bounds(line@, uri_attr(), 0);
    }
    match find_in(line, uri.as_slice(), 0) {
        None => Ok(Some(copy_chars(line))),
        Some(pos) => {
            let len = line.len();
            assert(pos + uri@.len() <= len);
            let at = pos + uri.len();
            let after = &line[at..line.len()];
            assert(after@ == line@.subrange(at as int, line@.len() as int));
            match attr_value_span(after) {
                None => Ok(Some(copy_chars(line))),
                Some((from, to, end)) => {
                    let value = string_of(&after[from..to]);
                    match base.join(value.as_str()) {
                        Err(e) => Err(RewriteError::Unresolvable(e)),
                        Ok(abs) => {
                            let mut out: Vec<char> = Vec::new();
                            push_all(&mut out, &line[0..at]);
                            out.push('"');
                            let px = proxied_url(origin, path, abs.as_str());
                            push_all(&mut out, px.as_slice());
                            out.push('"');
                            push_all(&mut out, &after[end..after.len()]);
                            proof {
                                let b = attr_value_bounds(after@)->0;
                                assert(out@ =~= line@.subrange(0, at as int) + seq!['"']
                                    + proxied(origin@, path@, abs@) + seq!['"']
                                    + after@.subrange(b.2, after@.len() as int));
                            }
                            Ok(Some(out))
                        },
                    }
                },
            }
        },
    }
}

/// Rewrites one playlist line.
pub fn rewrite_line(
    line: &[char],
    base: &ParsedUrl,
    origin: &[char],
    path: &[char],
) -> (r: Result<Vec<char>, RewriteError>)
    ensures
        r is Ok <==> line_rewrite(line@, base.source(), origin@, path@) is Some,
        r matches Ok(v) ==> line_rewrite(line@, base.source(), origin@, path@) == Some(v@),
        r is Err ==> r matches Err(RewriteError::Unresolvable(_)),
{
    match rewrite_ext_x_key_line(line, base, origin, path) {
        Err(e) => return Err(e),
        Ok(Some(v)) => return Ok(v),
        Ok(None) => {},
    }
    let hash = vec!['#'];
    assert(hash@ =~= seq!['#']);
    let (a, b) = trim_bounds(line);
    if matches_at(line, hash.as_slice(), 0) || a == b {
        return Ok(copy_chars(line));
    }
    let reference = string_of(&line[a..b]);
    match base.join(reference.as_str()) {
        Err(e) => Err(RewriteError::Unresolvable(e)),
        Ok(abs) => Ok(proxied_url(origin, path, abs.as_str())),
    }
}

/// Rewriting keeps the lines: where it succeeds, the output has exactly as
/// many lines as the input, and line `k` of the output is the rewrite of
/// line `k` of the input.
pub proof fn lemma_lines_rewrite_keeps_count(
    ls: Seq<Seq<char>>,
    base: Seq<char>,
    origin: Seq<char>,
    path: Seq<char>,
)
    ensures
        lines_rewrite(ls, base, origin, path) matches Some(out) ==> {
            &&& out.len() == ls.len()
            &&& forall|k: int|
                0 <= k < ls.len() ==> line_rewrite(#[trigger] ls[k], base, origin, path) == Some(
                    out[k],
                )
        },
    decreases ls.len(),
{
    if ls.len() > 0 {
        lemma_lines_rewrite_keeps_count(ls.drop_last(), base, origin, path);
        if let Some(out) = lines_rewrite(ls, base, origin, path) {
            let done = lines_rewrite(ls.drop_last(), base, origin, path)->0;
            assert forall|k: int|
                0 <= k < ls.len() implies line_rewrite(#[trigger] ls[k], base, origin, path)
                == Some(out[k]) by {
                if k < ls.len() - 1 {
                    assert(ls[k] == ls.drop_last()[k]);
                }
            }
        }
    }
}

/// A playlist that rewrites is the text of as many lines as the input has,
/// each the rewrite of the input line at the same place.
pub proof fn lemma_playlist_keeps_line_count(
    content: Seq<char>,
    base: Seq<char>,
    origin: Seq<char>,
    path: Seq<char>,
)
    ensures
        playlist_rewrite(content, base, origin, path) matches Some(text) ==> {
            &&& lines_rewrite(lines_of(content), base, origin, path) matches Some(out)
            &&& text == text_of_lines(out)
            &&& out.len() == lines_of(content).len()
            &&& forall|k: int|
                0 <= k < out.len() ==> line_rewrite(
                    #[trigger] lines_of(content)[k],
                    base,
                    origin,
                    path,
                ) == Some(out[k])
        },
{
    lemma_lines_rewrite_keeps_count(lines_of(content), base, origin, path);
}

/// A failure on a prefix of the lines is a failure on all of them.
proof fn lemma_prefix_rewrites(
    ls: Seq<Seq<char>>,
    j: int,
    base: Seq<char>,
    origin: Seq<char>,
    path: Seq<char>,
)
    requires
        0 <= j <= ls.len(),
        lines_rewrite(ls, base, origin, path) is Some,
    ensures
        lines_rewrite(ls.subrange(0, j), base, origin, path) is Some,
    decreases ls.len(),
{
    if j == ls.len() {
        assert(ls.subrange(0, j) =~= ls);
    } else {
        assert(ls.drop_last().subrange(0, j) =~= ls.subrange(0, j));
        lemma_prefix_rewrites(ls.drop_last(), j, base, origin, path);
    }
}

/// Rewrites a playlist so that every URI it references goes through the
/// proxy at `proxy_origin` and `proxy_path`; relative URIs resolve against
/// `base_url`. The output has the input's lines in order, each rewritten,
/// an empty last line included. Fails, with nothing partial, where the base
/// does not parse or a URI does not resolve.
pub fn rewrite_m3u8(content: &str, base_url: &str, proxy_origin: &str, proxy_path: &str) -> (r:
    Result<String, RewriteError>)
    ensures
        r is Ok <==> playlist_rewrite(content@, base_url@, proxy_origin@, proxy_path@) is Some,
        r matches Ok(t) ==> playlist_rewrite(content@, base_url@, proxy_origin@, proxy_path@)
            == Some(t@),
        r matches Err(RewriteError::InvalidBase(_)) <==> url_parse(base_url@) is None,
{
    let base = match ParsedUrl::parse(base_url) {
        Err(e) => return Err(RewriteError::InvalidBase(e)),
        Ok(b) => b,
    };
    let cs = chars_of(content);
    let origin = chars_of(proxy_origin);
    let path = chars_of(proxy_path);
    let sl = cs.as_slice();
    let bounds = split_lines(sl);
    let ghost ls = lines_of(sl@);
    let ghost src = base.source();
    let mut out: Vec<char> = Vec::new();
    let mut k: usize = 0;
    let mut last_empty = false;
    proof {
        assert(ls.subrange(0, 0) =~= Seq::<Seq<char>>::empty());
    }
    while k < bounds.len()
        invariant
            src == base.source(),
            src == base_url@,
            url_parse(base_url@) is Some,
            origin@ == proxy_origin@,
            path@ == proxy_path@,
            ls == lines_of(sl@),
            sl@ == content@,
            bounds@.len() == ls.len(),
            line_bounds(bounds@, sl@),
            k <= bounds@.len(),
            lines_rewrite(ls.subrange(0, k as int), src, origin@, path@) matches Some(done) && out@
                == join_lines(done) && done.len() == k && last_empty == (k > 0 && done.last().len()
                == 0),
        decreases bounds@.len() - k,
    {
        let (a, b) = bounds[k];
        assert(lines_of(sl@)[k as int] == sl@.subrange(a as int, b as int));
        let ghost done = lines_rewrite(ls.subrange(0, k as int), src, origin@, path@)->0;
        proof {
            assert(ls.subrange(0, k + 1).drop_last() =~= ls.subrange(0, k as int));
            assert(ls.subrange(0, k + 1).last() == ls[k as int]);
        }
        match rewrite_line(&sl[a..b], &base, origin.as_slice(), path.as_slice()) {
            Err(e) => {
                proof {
                    if lines_rewrite(ls, src, origin@, path@) is Some {
                        lemma_prefix_rewrites(ls, k + 1, src, origin@, path@);
                        assert(line_rewrite(ls[k as int], src, origin@, path@) is None);
                    }
                }
                return Err(e);
            },
            Ok(line) => {
                if k > 0 {
                    out.push('\n');
                }
                push_all(&mut out, line.as_slice());
                last_empty = line.len() == 0;
                proof {
                    let nd = done.push(line@);
                    assert(nd.drop_last() =~= done);
                    assert(out@ =~= join_lines(nd));
                }
                k += 1;
            },
        }
    }
    proof {
        assert(ls.subrange(0, k as int) =~= ls);
    }
    if last_empty {
        out.push('\n');
    }
    Ok(string_of(out.as_slice()))
}

/// An `#EXT-X-KEY` line without a `URI=` attribute comes out unchanged.
pub proof fn lemma_key_line_without_uri_unchanged(
    line: Seq<char>,
    base: Seq<char>,
    origin: Seq<char>,
    path: Seq<char>,
)
    requires
        has_prefix(line, key_tag()),
        !contains(line, uri_attr()),
    ensures
        line_rewrite(line, base, origin, path) == Some(line),
{
    lemma_find_from_bounds(line, uri_attr(), 0);
}

/// `s` holds no line break.
pub open spec fn no_newline(s: Seq<char>) -> bool {
    forall|j: int| 0 <= j < s.len() ==> s[j] != '\n'
}

/// The first line break at or after `i` is the one at `k`.
proof fn lemma_newline_at(s: Seq<char>, k: int, i: int)
    requires
        0 <= i <= k < s.len(),
        s[k] == '\n',
        forall|j: int| i <= j < k ==> s[j] != '\n',
    ensures
        find_from(s, seq!['\n'], i) == Some(k),
    decreases k - i,
{
    if i < k {
        assert(s.subrange(i, i + 1)[0] == s[i]);
        lemma_newline_at(s, k, i + 1);
    } else {
        assert(s.subrange(k, k + 1) =~= seq!['\n']);
    }
}

/// What the search for a line break finds, it finds first; what it misses
/// is not there.
proof fn lemma_newline_search(s: Seq<char>, i: int)
    requires
        0 <= i,
    ensures
        find_from(s, seq!['\n'], i) matches Some(k) ==> forall|j: int| i <= j < k ==> s[j] != '\n',
        find_from(s, seq!['\n'], i) is None ==> forall|j: int| i <= j < s.len() ==> s[j] != '\n',
    decreases s.len() + 1 - i,
{
    let nl = seq!['\n'];
    if i + 1 <= s.len() {
        assert(s.subrange(i, i + 1)[0] == s[i]);
        if s[i] == '\n' {
            assert(s.subrange(i, i + 1) =~= nl);
        } else {
            lemma_newline_search(s, i + 1);
        }
    }
}

/// No line of a text holds a line break.
pub proof fn lemma_lines_have_no_newline(s: Seq<char>)
    ensures
        forall|k: int| 0 <= k < lines_of(s).len() ==> no_newline(#[trigger] lines_of(s)[k]),
    decreases s.len(),
{
    if s.len() > 0 {
        let f = find_first(s, seq!['\n']);
        lemma_newline_search(s, 0);
        lemma_find_from_bounds(s, seq!['\n'], 0);
        if f is Some && 0 <= f->0 < s.len() {
            let rest = s.subrange(f->0 + 1, s.len() as int);
            lemma_lines_have_no_newline(rest);
            let head = strip_cr(s.subrange(0, f->0));
            assert forall|j: int| 0 <= j < head.len() implies head[j] != '\n' by {
                assert(head[j] == s[j]);
            }
            assert(lines_of(s) == seq![head] + lines_of(rest));
            assert(lines_of(s)[0] == head);
            assert forall|k: int| 0 <= k < lines_of(s).len() implies no_newline(
                #[trigger] lines_of(s)[k],
            ) by {
                if k > 0 {
                    assert(lines_of(s)[k] == lines_of(rest)[k - 1]);
                }
            }
        } else {
            assert(lines_of(s) == seq![s]);
            assert(lines_of(s)[0] == s);
        }
    }
}

/// The `\n`-join of at least two lines is the first, a break, and the
/// join of the others.
proof fn lemma_join_front(ls: Seq<Seq<char>>)
    requires
        ls.len() >= 2,
    ensures
        join_lines(ls) == ls[0] + seq!['\n'] + join_lines(ls.drop_first()),
    decreases ls.len(),
{
    let nl = seq!['\n'];
    if ls.len() == 2 {
        assert(join_lines(ls.drop_first()) == ls.drop_first()[0]);
        assert(join_lines(ls.drop_last()) == ls.drop_last()[0]);
        assert(join_lines(ls) == join_lines(ls.drop_last()) + nl + ls.last());
        assert(join_lines(ls) =~= ls[0] + nl + join_lines(ls.drop_first()));
    } else {
        let dl = ls.drop_last();
        let df = ls.drop_first();
        lemma_join_front(dl);
        assert(df.drop_last() =~= dl.drop_first());
        assert(df.last() == ls.last());
        assert(join_lines(df) == join_lines(df.drop_last()) + nl + df.last());
        assert(join_lines(ls) == join_lines(dl) + nl + ls.last());
        assert(join_lines(dl) == ls[0] + nl + join_lines(dl.drop_first()));
        assert(join_lines(ls) =~= ls[0] + nl + join_lines(df));
    }
}

/// Splitting the text of lines without breaks gives back as many lines.
pub proof fn lemma_resplit_count(ls: Seq<Seq<char>>)
    requires
        forall|i: int| 0 <= i < ls.len() ==> no_newline(#[trigger] ls[i]),
    ensures
        lines_of(text_of_lines(ls)).len() == ls.len(),
    decreases ls.len(),
{
    let nl = seq!['\n'];
    if ls.len() == 1 {
        let s = ls[0];
        assert(no_newline(s));
        assert(join_lines(ls) == s);
        if s.len() > 0 {
            lemma_find_from_bounds(s, nl, 0);
            if let Some(k) = find_first(s, nl) {
                assert(s.subrange(k, k + 1)[0] == s[k]);
            }
            assert(lines_of(s) == seq![s]);
        } else {
            let t = text_of_lines(ls);
            assert(t =~= nl);
            lemma_newline_at(t, 0, 0);
            assert(lines_of(t) == seq![strip_cr(t.subrange(0, 0))] + lines_of(t.subrange(1, 1)));
            assert(lines_of(t.subrange(1, 1)).len() == 0);
        }
    } else if ls.len() >= 2 {
        lemma_join_front(ls);
        let s = text_of_lines(ls);
        let k = ls[0].len() as int;
        let rest = ls.drop_first();
        assert(rest.last() == ls.last());
        assert(s =~= ls[0] + nl + text_of_lines(rest));
        assert(no_newline(ls[0]));
        assert forall|j: int| 0 <= j < k implies s[j] != '\n' by {
            assert(s[j] == ls[0][j]);
        }
        assert(s[k] == '\n');
        lemma_newline_at(s, k, 0);
        assert(s.subrange(k + 1, s.len() as int) =~= text_of_lines(rest));
        assert(lines_of(s) == seq![strip_cr(s.subrange(0, k))] + lines_of(
            s.subrange(k + 1, s.len() as int),
        ));
        assert forall|i: int| 0 <= i < rest.len() implies no_newline(#[trigger] rest[i]) by {
            assert(rest[i] == ls[i + 1]);
        }
        lemma_resplit_count(rest);
    }
}

/// Percent-encoding produces no line break.
proof fn lemma_encoded_no_newline(b: Seq<u8>)
    ensures
        no_newline(crate::urls::percent_encoded(b)),
    decreases b.len(),
{
    if b.len() > 0 {
        lemma_encoded_no_newline(b.drop_first());
        let e = crate::urls::percent_encoded(b);
        let t = crate::urls::percent_encoded(b.drop_first());
        let hd = if crate::urls::is_unreserved(b[0]) {
            seq![b[0] as char]
        } else {
            seq!['%', crate::urls::hex_digit(b[0] / 16), crate::urls::hex_digit(b[0] % 16)]
        };
        assert(e == hd + t);
        assert forall|j: int| 0 <= j < e.len() implies e[j] != '\n' by {
            if j >= hd.len() {
                assert(e[j] == t[j - hd.len()]);
            }
        }
    }
}

/// A rewritten line holds no line break where the line, the proxy origin
/// and the proxy path hold none.
proof fn lemma_rewritten_line(
    line: Seq<char>,
    base: Seq<char>,
    origin: Seq<char>,
    path: Seq<char>,
)
    requires
        no_newline(line),
        no_newline(origin),
        no_newline(path),
    ensures
        line_rewrite(line, base, origin, path) matches Some(o) ==> no_newline(o),
{
    reveal_strlit("?url=");
    assert forall|abs: Seq<char>| #[trigger] no_newline(proxied(origin, path, abs)) by {
        lemma_encoded_no_newline(vstd::utf8::encode_utf8(abs));
        let q = proxied(origin, path, abs);
        let e = url_encoded(abs);
        assert forall|j: int| 0 <= j < q.len() implies q[j] != '\n' by {
            let a = origin.len() as int;
            let b = a + path.len();
            let c = b + query_prefix().len();
            if j < a {
                assert(q[j] == origin[j]);
            } else if j < b {
                assert(q[j] == path[j - a]);
            } else if j < c {
                assert(q[j] == query_prefix()[j - b]);
            } else {
                assert(q[j] == e[j - c]);
            }
        }
    }
    if has_prefix(line, key_tag()) {
        lemma_find_from_bounds(line, uri_attr(), 0);
        if let Some(pos) = find_first(line, uri_attr()) {
            let at = pos + uri_attr().len();
            let after = line.subrange(at, line.len() as int);
            lemma_attr_value_bounds(after);
            if let Some(b) = attr_value_bounds(after) {
                if let Some(abs) = url_join(base, after.subrange(b.0, b.1)) {
                    let px = proxied(origin, path, abs);
                    let pre = line.subrange(0, at) + seq!['"'];
                    let mid = pre + px + seq!['"'];
                    let tail = after.subrange(b.2, after.len() as int);
                    let o = mid + tail;
                    assert(no_newline(px));
                    assert forall|j: int| 0 <= j < o.len() implies o[j] != '\n' by {
                        let a = at;
                        let m = a + 1 + px.len();
                        if j < a {
                            assert(o[j] == line[j]);
                        } else if j == a {
                        } else if j < m {
                            assert(o[j] == px[j - a - 1]);
                        } else if j == m {
                        } else {
                            assert(o[j] == after[b.2 + j - m - 1]);
                        }
                    }
                }
            }
        }
    }
}

/// Rewriting keeps the number of lines, also counted again in the output:
/// the rewritten text splits into exactly as many lines as the input,
/// wherever the proxy origin and path hold no line break.
pub proof fn lemma_rewrite_resplits_to_same_count(
    content: Seq<char>,
    base: Seq<char>,
    origin: Seq<char>,
    path: Seq<char>,
)
    requires
        no_newline(origin),
        no_newline(path),
    ensures
        playlist_rewrite(content, base, origin, path) matches Some(text) ==> lines_of(text).len()
            == lines_of(content).len(),
{
    if let Some(text) = playlist_rewrite(content, base, origin, path) {
        let ls = lines_of(content);
        lemma_playlist_keeps_line_count(content, base, origin, path);
        lemma_lines_have_no_newline(content);
        let out = lines_rewrite(ls, base, origin, path)->0;
        assert forall|i: int| 0 <= i < out.len() implies no_newline(#[trigger] out[i]) by {
            assert(no_newline(ls[i]));
            lemma_rewritten_line(ls[i], base, origin, path);
        }
        lemma_resplit_count(out);
    }
}

} // verus!
