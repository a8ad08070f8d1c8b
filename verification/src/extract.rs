//! Extraction of (path, content) pairs from free-form model output.
//!
//! The primary strategy reads fenced code blocks whose opening fence carries
//! a filename; the fallback strategy takes every fenced block and makes a
//! name up; and if neither finds anything, the whole text is kept as a single
//! document, so the output is never silently discarded.

use crate::infer::ext_of_language;
use crate::infer::get_extension_from_language;
use crate::lines::{ranges_lines, spec_lines, split_line_ranges};
use crate::text::{
    dec_str, first_where, is_space_char, is_word_char, lemma_first_where,
    lemma_first_where_unique, lemma_trim_end_unique, push_char, push_dec, scan_eq, scan_neq,
    scan_not_word, scan_not_ws, scan_end_ws, spec_trim, str_chars, string_from_range,
    append_range, trim_start_idx,
};
use vstd::prelude::*;
use vstd::string::StringExecFns;

verus! {

/// One extracted file: a relative path, still unsanitized, and its content.
pub struct ExtractedFile {
    pub path: String,
    pub content: String,
}

/// The mathematical model of a file list: a sequence of (path, content)
/// character sequences.
pub open spec fn files_view(fs: Seq<ExtractedFile>) -> Seq<(Seq<char>, Seq<char>)> {
    Seq::new(fs.len(), |i: int| (fs[i].path@, fs[i].content@))
}

/// The model of an optional current filename.
pub open spec fn opt_view(o: Option<String>) -> Option<Seq<char>> {
    match o {
        Some(s) => Some(s@),
        None => None,
    }
}

// ---------------------------------------------------------------------------
// Line classification
// ---------------------------------------------------------------------------

/// How many backticks the line opens with.
pub open spec fn leading_ticks(l: Seq<char>) -> int {
    first_where(l, |c: char| c != '`')
}

/// The line opens a fence whose remainder is non-empty: at least three
/// leading backticks, and something after them.
pub open spec fn is_fence_open(l: Seq<char>) -> bool {
    leading_ticks(l) >= 3 && leading_ticks(l) < l.len()
}

/// What stands after the run of leading backticks, trimmed.
pub open spec fn fence_header(l: Seq<char>) -> Seq<char> {
    spec_trim(l.skip(leading_ticks(l)))
}

/// The filename a fence header names, if any: the part after a colon
/// (trimmed), or the whole header when it holds no space. A header with a
/// space and no colon names none.
pub open spec fn header_filename(h: Seq<char>) -> Option<Seq<char>> {
    let k = first_where(h, |c: char| c == ':');
    if 0 <= k < h.len() {
        Some(spec_trim(h.subrange(k + 1, h.len() as int)))
    } else if first_where(h, |c: char| c == ' ') >= h.len() {
        Some(h)
    } else {
        None
    }
}

/// The line is exactly three backticks once trimmed: it closes an open block.
pub open spec fn is_bare_fence(l: Seq<char>) -> bool {
    let t = spec_trim(l);
    t.len() == 3 && t[0] == '`' && t[1] == '`' && t[2] == '`'
}

/// What a line means to the markdown extractor.
enum LineClass {
    /// A fence with a non-empty remainder; carries the filename it names,
    /// if any.
    Open(Option<String>),
    /// A bare closing fence.
    Bare,
    /// Anything else: content when a file is open, prose otherwise.
    Other,
}

/// Classifies the line `chars[a..b]`.
#[verifier::rlimit(60)]
fn classify_line(chars: &Vec<char>, a: usize, b: usize) -> (r: LineClass)
    requires
        a <= b <= chars@.len(),
    ensures
        ({
            let l = chars@.subrange(a as int, b as int);
            match r {
                LineClass::Open(name) => is_fence_open(l) && opt_view(name) == header_filename(
                    fence_header(l),
                ),
                LineClass::Bare => !is_fence_open(l) && is_bare_fence(l),
                LineClass::Other => !is_fence_open(l) && !is_bare_fence(l),
            }
        }),
{
    let ghost l = chars@.subrange(a as int, b as int);
    let t = scan_neq(chars, a, b, '`');
    proof {
        let pt = |c: char| c != '`';
        assert forall|j: int| 0 <= j < t - a implies !pt(l[j]) by {
            assert(l[j] == chars@[a + j]);
        }
        if t < b {
            assert(l[t - a] == chars@[t as int]);
        }
        lemma_first_where_unique(l, pt, t - a);
    }
    if t - a >= 3 && t < b {
        // A fence with a non-empty remainder: parse the header.
        let hs = scan_not_ws(chars, t, b);
        let he = scan_end_ws(chars, t, b);
        let ghost rem = l.skip(t - a);
        proof {
            assert(is_fence_open(l));
            let pw = |c: char| !is_space_char(c);
            assert forall|j: int| 0 <= j < hs - t implies !pw(rem[j]) by {
                assert(rem[j] == chars@[t + j]);
            }
            if hs < b {
                assert(rem[hs - t] == chars@[hs as int]);
            }
            lemma_first_where_unique(rem, pw, hs - t);
            assert forall|j: int| he - t <= j < rem.len() implies is_space_char(rem[j]) by {
                assert(rem[j] == chars@[t + j]);
            }
            if he > t {
                assert(rem[he - t - 1] == chars@[he - 1]);
            }
            lemma_trim_end_unique(rem, he - t);
        }
        if hs < he {
            let ghost h = chars@.subrange(hs as int, he as int);
            proof {
                assert(rem.subrange(hs - t, he - t) =~= h);
                assert(fence_header(l) == h);
            }
            let k = scan_eq(chars, hs, he, ':');
            proof {
                let pc = |c: char| c == ':';
                assert forall|j: int| 0 <= j < k - hs implies !pc(h[j]) by {
                    assert(h[j] == chars@[hs + j]);
                }
                if k < he {
                    assert(h[k - hs] == chars@[k as int]);
                }
                lemma_first_where_unique(h, pc, k - hs);
            }
            if k < he {
                // ```language:filename — keep the part after the colon.
                let fs = scan_not_ws(chars, k + 1, he);
                let fe = scan_end_ws(chars, k + 1, he);
                let ghost sub = h.subrange(k - hs + 1, h.len() as int);
                proof {
                    assert(sub =~= chars@.subrange(k + 1, he as int));
                    let pw = |c: char| !is_space_char(c);
                    assert forall|j: int| 0 <= j < fs - (k + 1) implies !pw(sub[j]) by {
                        assert(sub[j] == chars@[k + 1 + j]);
                    }
                    if fs < he {
                        assert(sub[fs - (k + 1)] == chars@[fs as int]);
                    }
                    lemma_first_where_unique(sub, pw, fs - (k + 1));
                    assert forall|j: int| fe - (k + 1) <= j < sub.len() implies is_space_char(
                        sub[j],
                    ) by {
                        assert(sub[j] == chars@[k + 1 + j]);
                    }
                    if fe > k + 1 {
                        assert(sub[fe - (k + 1) - 1] == chars@[fe - 1]);
                    }
                    lemma_trim_end_unique(sub, fe - (k + 1));
                }
                if fs < fe {
                    let name = string_from_range(chars, fs, fe);
                    proof {
                        assert(spec_trim(sub) =~= name@);
                    }
                    LineClass::Open(Some(name))
                } else {
                    let name = String::new();
                    proof {
                        assert(spec_trim(sub) =~= Seq::<char>::empty());
                        assert(name@ =~= spec_trim(sub));
                    }
                    LineClass::Open(Some(name))
                }
            } else {
                let sp = scan_eq(chars, hs, he, ' ');
                proof {
                    let ps = |c: char| c == ' ';
                    assert forall|j: int| 0 <= j < sp - hs implies !ps(h[j]) by {
                        assert(h[j] == chars@[hs + j]);
                    }
                    if sp < he {
                        assert(h[sp - hs] == chars@[sp as int]);
                    }
                    lemma_first_where_unique(h, ps, sp - hs);
                }
                if sp == he {
                    // ```filename — the whole header is the name.
                    let name = string_from_range(chars, hs, he);
                    LineClass::Open(Some(name))
                } else {
                    // ```language tag with a space: opens no file.
                    LineClass::Open(None)
                }
            }
        } else {
            // Backticks followed by whitespace only: an empty header, which
            // still opens a file with an empty name.
            let name = String::new();
            proof {
                assert(fence_header(l) =~= Seq::<char>::empty());
                assert(name@ =~= fence_header(l));
            }
            LineClass::Open(Some(name))
        }
    } else {
        // Not an opening fence; is it a bare closing fence?
        let ts = scan_not_ws(chars, a, b);
        let te = scan_end_ws(chars, a, b);
        proof {
            assert(!is_fence_open(l));
            let pw = |c: char| !is_space_char(c);
            assert forall|j: int| 0 <= j < ts - a implies !pw(l[j]) by {
                assert(l[j] == chars@[a + j]);
            }
            if ts < b {
                assert(l[ts - a] == chars@[ts as int]);
            }
            lemma_first_where_unique(l, pw, ts - a);
            assert forall|j: int| te - a <= j < l.len() implies is_space_char(l[j]) by {
                assert(l[j] == chars@[a + j]);
            }
            if te > a {
                assert(l[te - a - 1] == chars@[te - 1]);
            }
            lemma_trim_end_unique(l, te - a);
        }
        if ts < te && te - ts == 3 && chars[ts] == '`' && chars[ts + 1] == '`' && chars[ts + 2]
            == '`' {
            proof {
                let tr = spec_trim(l);
                assert(tr =~= chars@.subrange(ts as int, te as int));
                assert(tr[0] == chars@[ts as int]);
                assert(tr[1] == chars@[ts + 1]);
                assert(tr[2] == chars@[ts + 2]);
            }
            LineClass::Bare
        } else {
            proof {
                let tr = spec_trim(l);
                if ts < te {
                    assert(tr =~= chars@.subrange(ts as int, te as int));
                    if te - ts == 3 {
                        assert(tr[0] == chars@[ts as int]);
                        assert(tr[1] == chars@[ts + 1]);
                        assert(tr[2] == chars@[ts + 2]);
                    }
                }
            }
            LineClass::Other
        }
    }
}

// ---------------------------------------------------------------------------
// The markdown extractor
// ---------------------------------------------------------------------------

/// One step of the scan: how one line changes the extractor state
/// (flushed files, currently open filename, accumulated content).
pub open spec fn md_step(
    files: Seq<(Seq<char>, Seq<char>)>,
    cur: Option<Seq<char>>,
    content: Seq<char>,
    l: Seq<char>,
) -> (Seq<(Seq<char>, Seq<char>)>, Option<Seq<char>>, Seq<char>) {
    match cur {
        Some(name) => {
            if is_fence_open(l) {
                (files.push((name, content)), header_filename(fence_header(l)), Seq::empty())
            } else if is_bare_fence(l) {
                (files.push((name, content)), None, Seq::empty())
            } else {
                (files, cur, content + l + seq!['\n'])
            }
        },
        None => {
            if is_fence_open(l) {
                (files, header_filename(fence_header(l)), content)
            } else {
                (files, cur, content)
            }
        },
    }
}

/// Runs the scan over the remaining lines and flushes an unclosed trailing
/// block at the end.
pub open spec fn md_run(
    ls: Seq<Seq<char>>,
    files: Seq<(Seq<char>, Seq<char>)>,
    cur: Option<Seq<char>>,
    content: Seq<char>,
) -> Seq<(Seq<char>, Seq<char>)>
    decreases ls.len(),
{
    if ls.len() == 0 {
        match cur {
            Some(name) => files.push((name, content)),
            None => files,
        }
    } else {
        let st = md_step(files, cur, content, ls[0]);
        md_run(ls.drop_first(), st.0, st.1, st.2)
    }
}

/// What the markdown extractor yields on `text`: the files produced by
/// scanning its lines with an empty starting state.
pub open spec fn md_extract(text: Seq<char>) -> Seq<(Seq<char>, Seq<char>)> {
    md_run(spec_lines(text), Seq::empty(), None, Seq::empty())
}

/// Extracts the files that fenced blocks with explicit filenames carry.
///
/// A fence line with a non-empty remainder opens a file when the remainder
/// holds a `language:filename` pair or a single word; a bare fence closes it;
/// lines in between are kept verbatim, each with a trailing newline; an
/// unclosed block at the end of the text is still flushed.
pub fn extract_files_from_markdown(text: &str) -> (r: Vec<ExtractedFile>)
    ensures
        files_view(r@) == md_extract(text@),
{
    let chars = str_chars(text);
    let ghost s = text@;
    let ranges = split_line_ranges(&chars);
    let ghost ls = spec_lines(s);
    let mut out: Vec<ExtractedFile> = Vec::new();
    let mut cur: Option<String> = None;
    let mut content: String = String::new();
    let mut k: usize = 0;
    proof {
        assert(files_view(out@) =~= Seq::<(Seq<char>, Seq<char>)>::empty());
        assert(ls.skip(0) =~= ls);
    }
    while k < ranges.len()
        invariant
            chars@ == s,
            ranges_lines(ranges@, s) == ls,
            ls == spec_lines(s),
            forall|j: int| 0 <= j < ranges@.len() ==> (#[trigger] ranges@[j]).0 <= ranges@[j].1
                <= s.len(),
            0 <= k <= ranges@.len(),
            ls.len() == ranges@.len(),
            md_extract(s) == md_run(ls.skip(k as int), files_view(out@), opt_view(cur), content@),
        decreases ranges@.len() - k,
    {
        let pair = ranges[k];
        let a = pair.0;
        let b = pair.1;
        let ghost l = s.subrange(a as int, b as int);
        proof {
            assert(ls[k as int] == l);
            assert(ls.skip(k as int)[0] == ls[k as int]);
            assert(ls.skip(k as int).drop_first() =~= ls.skip(k as int + 1));
        }
        let ghost files0 = files_view(out@);
        let ghost cur0 = opt_view(cur);
        let ghost content0 = content@;
        match classify_line(&chars, a, b) {
            LineClass::Open(name) => {
                match cur {
                    Some(prev) => {
                        let flushed = ExtractedFile { path: prev, content };
                        proof {
                            assert(files_view(out@.push(flushed)) =~= files0.push(
                                (flushed.path@, flushed.content@),
                            ));
                        }
                        out.push(flushed);
                        content = String::new();
                    },
                    None => {},
                }
                cur = name;
            },
            LineClass::Bare => {
                match cur {
                    Some(prev) => {
                        let flushed = ExtractedFile { path: prev, content };
                        proof {
                            assert(files_view(out@.push(flushed)) =~= files0.push(
                                (flushed.path@, flushed.content@),
                            ));
                        }
                        out.push(flushed);
                        content = String::new();
                        cur = None;
                    },
                    None => {},
                }
            },
            LineClass::Other => {
                if cur.is_some() {
                    append_range(&mut content, &chars, a, b);
                    push_char(&mut content, '\n');
                    proof {
                        assert(content@ =~= content0 + l + seq!['\n']);
                    }
                }
            },
        }
        proof {
            let st = md_step(files0, cur0, content0, l);
            assert(files_view(out@) == st.0);
            assert(opt_view(cur) == st.1);
            assert(content@ == st.2);
        }
        k += 1;
    }
    proof {
        assert(ls.skip(ranges@.len() as int) =~= Seq::<Seq<char>>::empty());
    }
    match cur {
        Some(prev) => {
            let flushed = ExtractedFile { path: prev, content };
            proof {
                assert(files_view(out@.push(flushed)) =~= files_view(out@).push(
                    (flushed.path@, flushed.content@),
                ));
            }
            out.push(flushed);
        },
        None => {},
    }
    out
}

// ---------------------------------------------------------------------------
// The fallback code-block extractor
// ---------------------------------------------------------------------------

/// Position `i` is the start of a line.
pub open spec fn is_line_start(s: Seq<char>, i: int) -> bool {
    i == 0 || s[i - 1] == '\n'
}

/// One past the end of the ASCII word run that starts at `j`.
pub open spec fn word_run_end(s: Seq<char>, j: int) -> int {
    j + first_where(s.skip(j), |c: char| !is_word_char(c))
}

/// One past the end of the whitespace run that starts at `j`.
pub open spec fn space_run_end(s: Seq<char>, j: int) -> int {
    j + trim_start_idx(s.skip(j))
}

/// The greatest index in `[t, w)` that holds a newline, or `t - 1` if none
/// does.
pub open spec fn last_nl_before(s: Seq<char>, t: int, w: int) -> int
    decreases w - t,
{
    if w <= t {
        t - 1
    } else if s[w - 1] == '\n' {
        w - 1
    } else {
        last_nl_before(s, t, w - 1)
    }
}

/// [`last_nl_before`] stays in `[t - 1, w)`.
proof fn lemma_last_nl_bounds(s: Seq<char>, t: int, w: int)
    ensures
        t - 1 <= last_nl_before(s, t, w),
        last_nl_before(s, t, w) < w || last_nl_before(s, t, w) == t - 1,
    decreases w - t,
{
    if w <= t {
    } else if s[w - 1] == '\n' {
    } else {
        lemma_last_nl_bounds(s, t, w - 1);
    }
}

/// An index in `[t - 1, w)` holding a newline (unless it is `t - 1`), with no
/// newline after it in the range, is exactly [`last_nl_before`].
proof fn lemma_last_nl_unique(s: Seq<char>, t: int, w: int, m: int)
    requires
        t - 1 <= m,
        m < w || m == t - 1,
        m >= t ==> s[m] == '\n',
        forall|k: int| m < k < w ==> s[k] != '\n',
    ensures
        last_nl_before(s, t, w) == m,
    decreases w - t,
{
    if w <= t {
        assert(m == t - 1);
    } else if s[w - 1] == '\n' {
        assert(m == w - 1);
    } else {
        lemma_last_nl_unique(s, t, w - 1, m);
    }
}

/// A closing fence: three backticks at the start of a line.
pub open spec fn is_close_at(s: Seq<char>, e: int) -> bool {
    is_line_start(s, e) && e + 3 <= s.len() && s[e] == '`' && s[e + 1] == '`' && s[e + 2] == '`'
}

/// The least closing-fence position at or after `e`, if any.
pub open spec fn close_from(s: Seq<char>, e: int) -> Option<int>
    decreases s.len() - e,
{
    if e < 0 || e + 3 > s.len() {
        None
    } else if is_close_at(s, e) {
        Some(e)
    } else {
        close_from(s, e + 1)
    }
}

/// When [`close_from`] finds a position, it is a closing fence at or after
/// the start, inside the text.
proof fn lemma_close_from_bounds(s: Seq<char>, e0: int)
    requires
        close_from(s, e0) is Some,
    ensures
        e0 <= close_from(s, e0)->0,
        close_from(s, e0)->0 + 3 <= s.len(),
        is_close_at(s, close_from(s, e0)->0),
    decreases s.len() - e0,
{
    if e0 < 0 || e0 + 3 > s.len() {
    } else if is_close_at(s, e0) {
    } else {
        lemma_close_from_bounds(s, e0 + 1);
    }
}

/// A closing fence at `e` with none between `b` and `e` is what
/// [`close_from`] finds from `b`.
proof fn lemma_close_from_found(s: Seq<char>, b: int, e: int)
    requires
        0 <= b <= e,
        e + 3 <= s.len(),
        is_close_at(s, e),
        forall|j: int| b <= j < e ==> !is_close_at(s, j),
    ensures
        close_from(s, b) == Some(e),
    decreases e - b,
{
    if b == e {
    } else {
        lemma_close_from_found(s, b + 1, e);
    }
}

/// With no closing fence anywhere at or after `b`, [`close_from`] finds none.
proof fn lemma_close_from_none(s: Seq<char>, b: int)
    requires
        0 <= b,
        forall|j: int| b <= j && j + 3 <= s.len() ==> !is_close_at(s, j),
    ensures
        close_from(s, b) is None,
    decreases s.len() - b,
{
    if b + 3 > s.len() {
    } else {
        lemma_close_from_none(s, b + 1);
    }
}

/// A fallback block opens at `i`: a line-start fence, an optional word tag,
/// whitespace that holds a newline, and a closing fence further on.
pub open spec fn is_open_at(s: Seq<char>, i: int) -> bool {
    let t = word_run_end(s, i + 3);
    is_line_start(s, i) && i + 3 <= s.len() && s[i] == '`' && s[i + 1] == '`' && s[i + 2] == '`'
        && last_nl_before(s, t, space_run_end(s, t)) >= t && close_from(
        s,
        last_nl_before(s, t, space_run_end(s, t)) + 1,
    ) is Some
}

/// The least position at or after `p` where a fallback block opens.
pub open spec fn next_open(s: Seq<char>, p: int) -> Option<int>
    decreases s.len() - p,
{
    if p < 0 || p >= s.len() {
        None
    } else if is_open_at(s, p) {
        Some(p)
    } else {
        next_open(s, p + 1)
    }
}

/// Skipping positions where no block opens does not change what
/// [`next_open`] finds.
proof fn lemma_next_open_skip(s: Seq<char>, p: int, q: int)
    requires
        0 <= p <= q <= s.len(),
        forall|j: int| p <= j < q ==> !is_open_at(s, j),
    ensures
        next_open(s, p) == next_open(s, q),
    decreases q - p,
{
    if p < q {
        lemma_next_open_skip(s, p + 1, q);
    }
}

/// When [`next_open`] finds a position, a block opens there, at or after the
/// start.
proof fn lemma_next_open_bounds(s: Seq<char>, p: int)
    requires
        next_open(s, p) is Some,
    ensures
        p <= next_open(s, p)->0 < s.len(),
        is_open_at(s, next_open(s, p)->0),
    decreases s.len() - p,
{
    if p < 0 || p >= s.len() {
    } else if is_open_at(s, p) {
    } else {
        lemma_next_open_bounds(s, p + 1);
    }
}

/// The blocks of `s` from search position `p` on: for each, its tag (possibly
/// empty) and its body.
pub open spec fn cb_list(s: Seq<char>, p: int) -> Seq<(Seq<char>, Seq<char>)>
    decreases s.len() - p,
    via cb_list_dec
{
    match next_open(s, p) {
        None => Seq::empty(),
        Some(i) => {
            let t = word_run_end(s, i + 3);
            let b = last_nl_before(s, t, space_run_end(s, t)) + 1;
            match close_from(s, b) {
                Some(e) => seq![(s.subrange(i + 3, t), s.subrange(b, e))] + cb_list(s, e + 3),
                None => Seq::empty(),
            }
        },
    }
}

#[via_fn]
proof fn cb_list_dec(s: Seq<char>, p: int) {
    match next_open(s, p) {
        None => {},
        Some(i) => {
            lemma_next_open_bounds(s, p);
            let t = word_run_end(s, i + 3);
            lemma_first_where(s.skip(i + 3), |c: char| !is_word_char(c));
            let w = space_run_end(s, t);
            lemma_first_where(s.skip(t), |c: char| !is_space_char(c));
            lemma_last_nl_bounds(s, t, w);
            let b = last_nl_before(s, t, w) + 1;
            match close_from(s, b) {
                Some(e) => {
                    lemma_close_from_bounds(s, b);
                },
                None => {},
            }
        },
    }
}

/// The synthetic filename of the `counter`-th fallback block with tag `tag`.
pub open spec fn cb_name(counter: nat, tag: Seq<char>) -> Seq<char> {
    "file_"@ + dec_str(counter) + seq!['.'] + ext_of_language(tag)
}

/// Names the blocks in order with a running counter.
pub open spec fn cb_files(entries: Seq<(Seq<char>, Seq<char>)>, counter: nat) -> Seq<
    (Seq<char>, Seq<char>),
>
    decreases entries.len(),
{
    if entries.len() == 0 {
        Seq::empty()
    } else {
        seq![(cb_name(counter, entries[0].0), entries[0].1)] + cb_files(
            entries.drop_first(),
            counter + 1,
        )
    }
}

/// What the fallback extractor yields on `text`.
pub open spec fn cb_extract(text: Seq<char>) -> Seq<(Seq<char>, Seq<char>)> {
    cb_files(cb_list(text, 0), 1)
}

/// Tries to read a fallback block opening at `i`; on success returns the tag
/// end, the body start and the closing-fence position.
fn try_open_at(chars: &Vec<char>, i: usize) -> (r: Option<(usize, usize, usize)>)
    requires
        i < chars@.len(),
    ensures
        ({
            let s = chars@;
            match r {
                Some(m) => is_open_at(s, i as int) && m.0 == word_run_end(s, i + 3) && m.1
                    == last_nl_before(s, m.0 as int, space_run_end(s, m.0 as int)) + 1 && Some(
                    m.2 as int,
                ) == close_from(s, m.1 as int) && i + 3 <= m.0 < m.1 <= m.2 && m.2 + 3 <= s.len(),
                None => !is_open_at(s, i as int),
            }
        }),
{
    let ghost s = chars@;
    let n = chars.len();
    if !(i == 0 || chars[i - 1] == '\n') {
        return None;
    }
    if n - i < 3 {
        return None;
    }
    if !(chars[i] == '`' && chars[i + 1] == '`' && chars[i + 2] == '`') {
        return None;
    }
    let t = scan_not_word(chars, i + 3, n);
    proof {
        let tail = s.skip(i + 3);
        let pw = |c: char| !is_word_char(c);
        assert forall|j: int| 0 <= j < t - (i + 3) implies !pw(tail[j]) by {
            assert(tail[j] == s[i + 3 + j]);
        }
        if t < n {
            assert(tail[t - (i + 3)] == s[t as int]);
        }
        lemma_first_where_unique(tail, pw, t - (i + 3));
        assert(word_run_end(s, i + 3) == t);
    }
    let w = scan_not_ws(chars, t, n);
    proof {
        let tail = s.skip(t as int);
        let ps = |c: char| !is_space_char(c);
        assert forall|j: int| 0 <= j < w - t implies !ps(tail[j]) by {
            assert(tail[j] == s[t + j]);
        }
        if w < n {
            assert(tail[w - t] == s[w as int]);
        }
        lemma_first_where_unique(tail, ps, w - t);
        assert(space_run_end(s, t as int) == w);
    }
    // The body starts after the last newline in the whitespace run.
    let mut j: usize = w;
    while j > t && chars[j - 1] != '\n'
        invariant
            t <= j <= w <= n,
            n == s.len(),
            chars@ == s,
            forall|k: int| j <= k < w ==> s[k] != '\n',
        decreases j,
    {
        j -= 1;
    }
    if j == t {
        proof {
            lemma_last_nl_unique(s, t as int, w as int, t - 1);
        }
        return None;
    }
    let b = j;
    proof {
        assert(s[b - 1] == '\n');
        lemma_last_nl_unique(s, t as int, w as int, b - 1);
    }
    match find_close(chars, b) {
        Some(e) => Some((t, b, e)),
        None => None,
    }
}

/// Finds the first closing fence at or after `b`.
fn find_close(chars: &Vec<char>, b: usize) -> (r: Option<usize>)
    requires
        b <= chars@.len(),
    ensures
        ({
            let s = chars@;
            match r {
                Some(e) => close_from(s, b as int) == Some(e as int) && b <= e && e + 3 <= s.len()
                    && is_close_at(s, e as int),
                None => close_from(s, b as int) is None,
            }
        }),
{
    let ghost s = chars@;
    let n = chars.len();
    let mut q: usize = b;
    while q < n
        invariant
            b <= q <= n,
            n == s.len(),
            chars@ == s,
            forall|j: int| b <= j < q ==> !is_close_at(s, j),
        decreases n - q,
    {
        if n - q >= 3 && (q == 0 || chars[q - 1] == '\n') && chars[q] == '`' && chars[q + 1] == '`'
            && chars[q + 2] == '`' {
            proof {
                lemma_close_from_found(s, b as int, q as int);
            }
            return Some(q);
        }
        q += 1;
    }
    proof {
        lemma_close_from_none(s, b as int);
    }
    None
}

/// Finds the first fallback block at or after `p`: its opening position, tag
/// end, body start and closing-fence position.
fn find_match_from(chars: &Vec<char>, p: usize) -> (r: Option<(usize, usize, usize, usize)>)
    requires
        p <= chars@.len(),
    ensures
        ({
            let s = chars@;
            match r {
                Some(m) => next_open(s, p as int) == Some(m.0 as int) && m.1 == word_run_end(
                    s,
                    m.0 + 3,
                ) && m.2 == last_nl_before(s, m.1 as int, space_run_end(s, m.1 as int)) + 1 && Some(
                    m.3 as int,
                ) == close_from(s, m.2 as int) && p <= m.0 && m.0 + 3 <= m.1 < m.2 <= m.3 && m.3
                    + 3 <= s.len(),
                None => next_open(s, p as int) is None,
            }
        }),
{
    let ghost s = chars@;
    let n = chars.len();
    let mut q: usize = p;
    while q < n
        invariant
            p <= q <= n,
            n == s.len(),
            chars@ == s,
            forall|j: int| p <= j < q ==> !is_open_at(s, j),
        decreases n - q,
    {
        match try_open_at(chars, q) {
            Some(m) => {
                proof {
                    lemma_next_open_skip(s, p as int, q as int);
                }
                return Some((q, m.0, m.1, m.2));
            },
            None => {},
        }
        q += 1;
    }
    proof {
        lemma_next_open_skip(s, p as int, n as int);
    }
    None
}

/// Extracts every fenced block, with or without a filename, and names each
/// one `file_<n>.<ext>` from a running counter and the block's language tag.
pub fn extract_files_from_code_blocks(text: &str) -> (r: Vec<ExtractedFile>)
    ensures
        files_view(r@) == cb_extract(text@),
{
    let chars = str_chars(text);
    let ghost s = text@;
    let n = chars.len();
    let mut out: Vec<ExtractedFile> = Vec::new();
    let mut counter: u64 = 1;
    let mut p: usize = 0;
    proof {
        assert(files_view(out@) =~= Seq::<(Seq<char>, Seq<char>)>::empty());
        assert(files_view(out@) + cb_files(cb_list(s, 0), 1) =~= cb_files(cb_list(s, 0), 1));
    }
    loop
        invariant
            chars@ == s,
            n == s.len(),
            0 <= p <= n,
            1 <= counter,
            7 * (counter - 1) <= p,
            cb_extract(s) == files_view(out@) + cb_files(cb_list(s, p as int), counter as nat),
        ensures
            cb_extract(s) == files_view(out@),
        decreases n - p,
    {
        match find_match_from(&chars, p) {
            None => {
                proof {
                    assert(cb_list(s, p as int) =~= Seq::<(Seq<char>, Seq<char>)>::empty());
                    assert(files_view(out@) + cb_files(cb_list(s, p as int), counter as nat) =~=
                        files_view(out@));
                }
                break ;
            },
            Some(m) => {
                let (i, t, b, e) = m;
                let ghost entries = cb_list(s, p as int);
                let ghost tag = s.subrange(i + 3, t as int);
                let ghost body = s.subrange(b as int, e as int);
                proof {
                    assert(entries == seq![(tag, body)] + cb_list(s, e + 3));
                    assert(entries[0] == (tag, body));
                    assert(entries.drop_first() =~= cb_list(s, e + 3));
                }
                let mut name = "file_".to_owned();
                push_dec(&mut name, counter);
                push_char(&mut name, '.');
                let lang = string_from_range(&chars, i + 3, t);
                let ext = get_extension_from_language(lang.as_str());
                name.append(ext.as_str());
                proof {
                    assert(name@ =~= cb_name(counter as nat, tag));
                }
                let body_str = string_from_range(&chars, b, e);
                let file = ExtractedFile { path: name, content: body_str };
                proof {
                    assert(files_view(out@.push(file)) =~= files_view(out@).push(
                        (file.path@, file.content@),
                    ));
                    assert(cb_files(entries, counter as nat) == seq![(cb_name(counter as nat, tag), body)]
                        + cb_files(entries.drop_first(), counter as nat + 1));
                    assert((files_view(out@) + cb_files(entries, counter as nat)) =~= (files_view(
                        out@,
                    ).push((file.path@, file.content@)) + cb_files(
                        cb_list(s, e + 3),
                        counter as nat + 1,
                    )));
                }
                out.push(file);
                counter += 1;
                p = e + 3;
            },
        }
    }
    out
}

// ---------------------------------------------------------------------------
// The orchestrator
// ---------------------------------------------------------------------------

/// What extraction yields: the filename-annotated blocks if there are any,
/// else every fenced block under a synthetic name, else the whole text as a
/// single `README.md`.
pub open spec fn extract_spec(text: Seq<char>) -> Seq<(Seq<char>, Seq<char>)> {
    if md_extract(text).len() > 0 {
        md_extract(text)
    } else if cb_extract(text).len() > 0 {
        cb_extract(text)
    } else {
        seq![("README.md"@, text)]
    }
}

/// Extracts files from `text`, trying the filename-annotated strategy first,
/// then the fallback block strategy, and finally keeping the whole text as a
/// single document. Never yields an empty list: the model's response is never
/// silently discarded.
pub fn extract_files(text: &str) -> (r: Vec<ExtractedFile>)
    ensures
        files_view(r@) == extract_spec(text@),
        r@.len() >= 1,
{
    let files = extract_files_from_markdown(text);
    if files.len() > 0 {
        return files;
    }
    let files = extract_files_from_code_blocks(text);
    if files.len() > 0 {
        return files;
    }
    let mut v: Vec<ExtractedFile> = Vec::new();
    let readme = ExtractedFile { path: "README.md".to_owned(), content: text.to_owned() };
    v.push(readme);
    proof {
        assert(files_view(v@) =~= seq![("README.md"@, text@)]);
    }
    v
}

// ---------------------------------------------------------------------------
// No fabricated content
// ---------------------------------------------------------------------------

/// `c` is a contiguous slice of `s`.
pub open spec fn is_slice_of(c: Seq<char>, s: Seq<char>) -> bool {
    exists|a: int, b: int| 0 <= a <= b <= s.len() && c == #[trigger] s.subrange(a, b)
}

/// The lines `ls[a..b]`, each closed with a newline, joined in order.
pub open spec fn joined_lines(ls: Seq<Seq<char>>, a: int, b: int) -> Seq<char>
    decreases b - a,
{
    if a >= b {
        Seq::empty()
    } else {
        joined_lines(ls, a, b - 1) + ls[b - 1] + seq!['\n']
    }
}

/// `c` is a run of consecutive lines of `s`, each closed with a newline.
pub open spec fn from_lines_of(c: Seq<char>, s: Seq<char>) -> bool {
    exists|a: int, b: int| 0 <= a <= b <= spec_lines(s).len() && c == #[trigger] joined_lines(
        spec_lines(s),
        a,
        b,
    )
}

/// `c` is drawn from the input `s` and fabricates nothing: it is `s` itself,
/// a contiguous slice of it, or a run of its lines each closed with a
/// newline.
pub open spec fn content_from_input(c: Seq<char>, s: Seq<char>) -> bool {
    c == s || is_slice_of(c, s) || from_lines_of(c, s)
}

/// Every content the markdown scan accumulates or flushes is a run of input
/// lines.
proof fn lemma_md_run_prov(
    s: Seq<char>,
    p: int,
    files: Seq<(Seq<char>, Seq<char>)>,
    cur: Option<Seq<char>>,
    content: Seq<char>,
)
    requires
        0 <= p <= spec_lines(s).len(),
        forall|k: int| 0 <= k < files.len() ==> content_from_input(#[trigger] files[k].1, s),
        exists|a: int| 0 <= a <= p && content == joined_lines(spec_lines(s), a, p),
        cur is None ==> content == Seq::<char>::empty(),
    ensures
        forall|k: int|
            0 <= k < md_run(spec_lines(s).skip(p), files, cur, content).len()
                ==> content_from_input(
                #[trigger] md_run(spec_lines(s).skip(p), files, cur, content)[k].1,
                s,
            ),
    decreases spec_lines(s).len() - p,
{
    let all = spec_lines(s);
    let ls = all.skip(p);
    if ls.len() == 0 {
        match cur {
            Some(name) => {
                let res = files.push((name, content));
                assert forall|k: int| 0 <= k < res.len() implies content_from_input(
                    res[k].1,
                    s,
                ) by {
                    if k == files.len() {
                        let a = choose|a: int| 0 <= a <= p && content == joined_lines(all, a, p);
                        assert(content == joined_lines(spec_lines(s), a, p));
                    }
                }
            },
            None => {},
        }
    } else {
        assert(ls[0] == all[p]);
        let st = md_step(files, cur, content, ls[0]);
        assert(ls.drop_first() =~= all.skip(p + 1));
        // The new file list only gains contents already drawn from the input.
        assert forall|k: int| 0 <= k < st.0.len() implies content_from_input(st.0[k].1, s) by {
            if k >= files.len() {
                let a = choose|a: int| 0 <= a <= p && content == joined_lines(all, a, p);
                assert(content == joined_lines(spec_lines(s), a, p));
            }
        }
        // The new accumulator is again a run of lines ending at p + 1.
        match cur {
            Some(name) => {
                if is_fence_open(ls[0]) || is_bare_fence(ls[0]) {
                    assert(st.2 == joined_lines(all, p + 1, p + 1));
                } else {
                    let a = choose|a: int| 0 <= a <= p && content == joined_lines(all, a, p);
                    assert(joined_lines(all, a, p + 1) == joined_lines(all, a, p) + all[p] + seq![
                        '\n',
                    ]);
                    assert(st.2 == joined_lines(all, a, p + 1));
                }
            },
            None => {
                assert(st.2 == Seq::<char>::empty());
                assert(st.2 == joined_lines(all, p + 1, p + 1));
            },
        }
        lemma_md_run_prov(s, p + 1, st.0, st.1, st.2);
        let res = md_run(ls, files, cur, content);
        let res1 = md_run(all.skip(p + 1), st.0, st.1, st.2);
        assert(res == md_run(ls.drop_first(), st.0, st.1, st.2));
        assert forall|k: int| 0 <= k < res.len() implies content_from_input(res[k].1, s) by {
            assert(res[k].1 == res1[k].1);
        }
    }
}

/// Every body the fallback extractor yields is a contiguous slice of the
/// input.
proof fn lemma_cb_files_prov(s: Seq<char>, p: int, counter: nat)
    requires
        0 <= p <= s.len(),
    ensures
        forall|k: int|
            0 <= k < cb_files(cb_list(s, p), counter).len() ==> is_slice_of(
                #[trigger] cb_files(cb_list(s, p), counter)[k].1,
                s,
            ),
    decreases s.len() - p,
{
    let entries = cb_list(s, p);
    match next_open(s, p) {
        None => {},
        Some(i) => {
            lemma_next_open_bounds(s, p);
            let t = word_run_end(s, i + 3);
            lemma_first_where(s.skip(i + 3), |c: char| !is_word_char(c));
            let w = space_run_end(s, t);
            lemma_first_where(s.skip(t), |c: char| !is_space_char(c));
            lemma_last_nl_bounds(s, t, w);
            let b = last_nl_before(s, t, w) + 1;
            match close_from(s, b) {
                Some(e) => {
                    lemma_close_from_bounds(s, b);
                    assert(entries == seq![(s.subrange(i + 3, t), s.subrange(b, e))] + cb_list(
                        s,
                        e + 3,
                    ));
                    assert(entries.drop_first() =~= cb_list(s, e + 3));
                    lemma_cb_files_prov(s, e + 3, counter + 1);
                    let res = cb_files(entries, counter);
                    let rest = cb_files(cb_list(s, e + 3), counter + 1);
                    assert(res == seq![(cb_name(counter, entries[0].0), entries[0].1)] + rest);
                    assert forall|k: int| 0 <= k < res.len() implies is_slice_of(res[k].1, s) by {
                        if k == 0 {
                            assert(res[0].1 == s.subrange(b, e));
                        } else {
                            assert(res[k] == rest[k - 1]);
                        }
                    }
                },
                None => {},
            }
        },
    }
}

/// Extraction yields at least one file, and fabricates no content: each
/// file's content is the input itself, a contiguous slice of it, or a run of
/// consecutive input lines each closed with a newline.
pub proof fn lemma_extract_files_no_fabrication(text: Seq<char>)
    ensures
        extract_spec(text).len() >= 1,
        forall|k: int|
            0 <= k < extract_spec(text).len() ==> content_from_input(
                #[trigger] extract_spec(text)[k].1,
                text,
            ),
{
    let all = spec_lines(text);
    if md_extract(text).len() > 0 {
        assert(all.skip(0) =~= all);
        assert(joined_lines(all, 0, 0) == Seq::<char>::empty());
        lemma_md_run_prov(text, 0, Seq::empty(), None, Seq::empty());
        assert(md_run(all.skip(0), Seq::empty(), None, Seq::empty()) == md_extract(text));
    } else if cb_extract(text).len() > 0 {
        lemma_cb_files_prov(text, 0, 1);
    } else {
        assert(extract_spec(text)[0].1 == text);
    }
}

} // verus!
