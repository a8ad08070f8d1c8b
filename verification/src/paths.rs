//! Path sanitization and the planning of file writes.
//!
//! A candidate path is trimmed, refused when it could escape the output
//! directory, and normalized to forward slashes; a path without an extension
//! gets one inferred from its content; and a whole extracted file list is
//! turned into the ordered list of (full path, content) writes. Writing the
//! same plan twice leaves the same files: the overwrite model at the end of
//! this module proves it.

use crate::errors::{AppError, PathError};
use crate::extract::{extract_files, extract_spec, files_view, ExtractedFile};
use crate::infer::{infer_extension_from_content, inferred_ext};
use crate::text::{
    contains_chars, contains_seq, is_space_char, lemma_first_where_unique, lemma_trim_end_unique,
    push_char, scan_eq, scan_not_ws, scan_end_ws, spec_trim, str_chars, vec_from_range,
};
use vstd::prelude::*;
use vstd::string::StringExecFns;

verus! {

// ---------------------------------------------------------------------------
// Sanitization
// ---------------------------------------------------------------------------

/// A trimmed path is suspicious when it holds a parent-directory traversal
/// pair of dots anywhere, or is rooted. Such a path could escape the output
/// directory and is refused outright.
pub open spec fn is_suspicious(p: Seq<char>) -> bool {
    contains_seq(p, ".."@) || (p.len() > 0 && (p[0] == '/' || p[0] == '\\'))
}

/// `p` with every backslash separator turned into a forward slash.
pub open spec fn normalize_seps(p: Seq<char>) -> Seq<char> {
    p.map_values(
        |c: char|
            if c == '\\' {
                '/'
            } else {
                c
            },
    )
}

/// Trims `raw` and computes the bounds of its non-whitespace core.
fn trim_range(chars: &Vec<char>) -> (r: (usize, usize))
    ensures
        r.0 <= chars@.len(),
        r.1 <= chars@.len(),
        spec_trim(chars@) == if r.0 < r.1 {
            chars@.subrange(r.0 as int, r.1 as int)
        } else {
            Seq::<char>::empty()
        },
{
    let n = chars.len();
    let ts = scan_not_ws(chars, 0, n);
    let te = scan_end_ws(chars, 0, n);
    proof {
        let s = chars@;
        let pw = |c: char| !is_space_char(c);
        lemma_first_where_unique(s, pw, ts as int);
        lemma_trim_end_unique(s, te as int);
        if !(ts < te) {
            assert(spec_trim(s) == Seq::<char>::empty());
        }
    }
    (ts, te)
}

/// Validates and normalizes a candidate relative path: trims whitespace,
/// refuses a traversal or rooted path as [`PathError::Suspicious`], and turns
/// backslash separators into forward slashes. Pure; this is the security
/// boundary that keeps output under the output directory.
pub fn sanitize(raw: &str) -> (r: Result<String, PathError>)
    ensures
        ({
            let t = spec_trim(raw@);
            match r {
                Ok(p) => !is_suspicious(t) && p@ == normalize_seps(t),
                Err(PathError::Suspicious(p)) => is_suspicious(t) && p@ == t,
            }
        }),
{
    let chars = str_chars(raw);
    let (ts, te) = trim_range(&chars);
    let t = if ts < te {
        vec_from_range(&chars, ts, te)
    } else {
        Vec::new()
    };
    proof {
        assert(t@ == spec_trim(raw@));
    }
    let suspicious = contains_chars(&t, "..") || (t.len() > 0 && (t[0] == '/' || t[0] == '\\'));
    if suspicious {
        let mut p = String::new();
        let mut i: usize = 0;
        while i < t.len()
            invariant
                0 <= i <= t@.len(),
                p@ == t@.subrange(0, i as int),
            decreases t@.len() - i,
        {
            push_char(&mut p, t[i]);
            proof {
                assert(t@.subrange(0, i + 1 as int) =~= t@.subrange(0, i as int) + seq![
                    t@[i as int],
                ]);
            }
            i += 1;
        }
        proof {
            assert(p@ =~= t@);
        }
        Err(PathError::Suspicious(p))
    } else {
        let mut p = String::new();
        let mut i: usize = 0;
        while i < t.len()
            invariant
                0 <= i <= t@.len(),
                p@.len() == i,
                forall|j: int| 0 <= j < i ==> p@[j] == (if t@[j] == '\\' {
                    '/'
                } else {
                    t@[j]
                }),
            decreases t@.len() - i,
        {
            let c = t[i];
            if c == '\\' {
                push_char(&mut p, '/');
            } else {
                push_char(&mut p, c);
            }
            i += 1;
        }
        proof {
            assert(p@ =~= normalize_seps(t@));
        }
        Ok(p)
    }
}

/// Like [`sanitize`], but reports a refusal as the engine's error type, with
/// the offending path named in the message.
pub fn clean_and_validate_file_path(file_path: &str) -> (r: Result<String, AppError>)
    ensures
        ({
            let t = spec_trim(file_path@);
            match r {
                Ok(p) => !is_suspicious(t) && p@ == normalize_seps(t),
                Err(e) => is_suspicious(t) && (match e {
                    AppError::ResponseError(m) => m@ == "Suspicious file path: "@ + t,
                    _ => false,
                }),
            }
        }),
{
    match sanitize(file_path) {
        Ok(p) => Ok(p),
        Err(PathError::Suspicious(p)) => {
            let mut m = "Suspicious file path: ".to_owned();
            m.append(p.as_str());
            Err(AppError::ResponseError(m))
        },
    }
}

// ---------------------------------------------------------------------------
// Extension completion and joining
// ---------------------------------------------------------------------------

/// Whether the path holds a dot anywhere: then it already has an extension.
pub open spec fn has_dot(p: Seq<char>) -> bool {
    exists|i: int| 0 <= i < p.len() && p[i] == '.'
}

/// The path with an extension inferred from the content appended, when it
/// has none of its own.
pub open spec fn completed_path(p: Seq<char>, content: Seq<char>) -> Seq<char> {
    if has_dot(p) {
        p
    } else {
        p + seq!['.'] + inferred_ext(content)
    }
}

/// `rel` resolved under `dir`, with exactly one slash between them.
pub open spec fn joined_path(dir: Seq<char>, rel: Seq<char>) -> Seq<char> {
    if dir.len() == 0 {
        rel
    } else if dir[dir.len() - 1] == '/' {
        dir + rel
    } else {
        dir + seq!['/'] + rel
    }
}

/// Resolves `rel` under `dir`.
pub fn join_path(dir: &str, rel: String) -> (r: String)
    ensures
        r@ == joined_path(dir@, rel@),
{
    let n = dir.unicode_len();
    if n == 0 {
        rel
    } else {
        let mut s = dir.to_owned();
        if dir.get_char(n - 1) != '/' {
            push_char(&mut s, '/');
        }
        s.append(rel.as_str());
        s
    }
}

// ---------------------------------------------------------------------------
// Planning the writes
// ---------------------------------------------------------------------------

/// The writes that materializing `files` under `dir` performs, in order:
/// each path sanitized and completed, then resolved under `dir`. The first
/// suspicious path aborts the whole batch with its trimmed form.
pub open spec fn plan_writes_spec(files: Seq<(Seq<char>, Seq<char>)>, dir: Seq<char>) -> Result<
    Seq<(Seq<char>, Seq<char>)>,
    Seq<char>,
>
    decreases files.len(),
{
    if files.len() == 0 {
        Ok(Seq::empty())
    } else {
        let t = spec_trim(files[0].0);
        if is_suspicious(t) {
            Err(t)
        } else {
            let full = joined_path(dir, completed_path(normalize_seps(t), files[0].1));
            match plan_writes_spec(files.drop_first(), dir) {
                Ok(rest) => Ok(seq![(full, files[0].1)] + rest),
                Err(m) => Err(m),
            }
        }
    }
}

/// Prepends the writes already planned to what the rest of the batch yields.
pub open spec fn compose_plan(
    done: Seq<(Seq<char>, Seq<char>)>,
    rest: Result<Seq<(Seq<char>, Seq<char>)>, Seq<char>>,
) -> Result<Seq<(Seq<char>, Seq<char>)>, Seq<char>> {
    match rest {
        Ok(r) => Ok(done + r),
        Err(m) => Err(m),
    }
}

/// Plans the writes for `files` under `output_dir`: sanitizes each path,
/// appends an inferred extension where one is missing, and resolves it under
/// the output directory. The first suspicious path aborts the whole batch,
/// as the materialization contract demands.
pub fn plan_writes(files: Vec<ExtractedFile>, output_dir: &str) -> (r: Result<
    Vec<ExtractedFile>,
    AppError,
>)
    ensures
        ({
            let plan = plan_writes_spec(files_view(files@), output_dir@);
            match r {
                Ok(v) => plan == Ok::<Seq<(Seq<char>, Seq<char>)>, Seq<char>>(files_view(v@)),
                Err(e) => plan is Err && (match (e, plan) {
                    (AppError::ResponseError(m), Err(t)) => m@ == "Suspicious file path: "@ + t,
                    _ => false,
                }),
            }
        }),
{
    let ghost fv = files_view(files@);
    let ghost dir = output_dir@;
    let mut out: Vec<ExtractedFile> = Vec::new();
    let mut i: usize = 0;
    proof {
        assert(fv.skip(0) =~= fv);
        assert(files_view(out@) =~= Seq::<(Seq<char>, Seq<char>)>::empty());
        if plan_writes_spec(fv, dir) is Ok {
            assert(compose_plan(files_view(out@), plan_writes_spec(fv.skip(0), dir))
                == plan_writes_spec(fv, dir)) by {
                assert(files_view(out@) + plan_writes_spec(fv, dir)->Ok_0 =~= plan_writes_spec(
                    fv,
                    dir,
                )->Ok_0);
            }
        }
    }
    while i < files.len()
        invariant
            0 <= i <= files@.len(),
            fv == files_view(files@),
            dir == output_dir@,
            fv.len() == files@.len(),
            plan_writes_spec(fv, dir) == compose_plan(
                files_view(out@),
                plan_writes_spec(fv.skip(i as int), dir),
            ),
        decreases files@.len() - i,
    {
        let ghost done = files_view(out@);
        proof {
            assert(fv.skip(i as int)[0] == fv[i as int]);
            assert(fv.skip(i as int).drop_first() =~= fv.skip(i as int + 1));
            assert(fv[i as int] == (files@[i as int].path@, files@[i as int].content@));
        }
        let clean = match clean_and_validate_file_path(files[i].path.as_str()) {
            Ok(p) => p,
            Err(e) => {
                return Err(e);
            },
        };
        let n = clean.unicode_len();
        let cchars = str_chars(clean.as_str());
        let d = scan_eq(&cchars, 0, n, '.');
        let final_path = if d < n {
            proof {
                assert(has_dot(clean@));
            }
            clean
        } else {
            let ext = infer_extension_from_content(files[i].content.as_str());
            let mut f = clean;
            push_char(&mut f, '.');
            f.append(ext.as_str());
            f
        };
        let full = join_path(output_dir, final_path);
        let content = files[i].content.clone();
        let planned = ExtractedFile { path: full, content };
        proof {
            let t = spec_trim(fv[i as int].0);
            let full0 = joined_path(dir, completed_path(normalize_seps(t), fv[i as int].1));
            assert(planned.path@ == full0);
            assert(files_view(out@.push(planned)) =~= done.push((planned.path@, planned.content@)));
            let rest1 = plan_writes_spec(fv.skip(i as int + 1), dir);
            assert(plan_writes_spec(fv.skip(i as int), dir) == compose_plan(
                seq![(full0, fv[i as int].1)],
                rest1,
            ));
            match rest1 {
                Ok(r1) => {
                    assert(done + (seq![(full0, fv[i as int].1)] + r1) =~= done.push(
                        (planned.path@, planned.content@),
                    ) + r1);
                },
                Err(_) => {},
            }
        }
        out.push(planned);
        i += 1;
    }
    proof {
        assert(fv.skip(files@.len() as int) =~= Seq::<(Seq<char>, Seq<char>)>::empty());
        assert(files_view(out@) + Seq::<(Seq<char>, Seq<char>)>::empty() =~= files_view(out@));
    }
    Ok(out)
}

/// Extracts files from the response text and plans their writes under
/// `output_dir`: the full pipeline of the file-generation mode, up to the
/// actual filesystem effects. The first suspicious path aborts the whole
/// batch.
pub fn create_files_from_response(text: &str, output_dir: &str) -> (r: Result<
    Vec<ExtractedFile>,
    AppError,
>)
    ensures
        ({
            let plan = plan_writes_spec(extract_spec(text@), output_dir@);
            match r {
                Ok(v) => plan == Ok::<Seq<(Seq<char>, Seq<char>)>, Seq<char>>(files_view(v@)),
                Err(e) => plan is Err && (match (e, plan) {
                    (AppError::ResponseError(m), Err(t)) => m@ == "Suspicious file path: "@ + t,
                    _ => false,
                }),
            }
        }),
{
    let files = extract_files(text);
    plan_writes(files, output_dir)
}

// ---------------------------------------------------------------------------
// The overwrite model: materialization is idempotent
// ---------------------------------------------------------------------------

/// The filesystem model after the planned writes run in order: each write
/// overwrites whatever the path held before.
pub open spec fn apply_writes(
    fs: Map<Seq<char>, Seq<char>>,
    files: Seq<(Seq<char>, Seq<char>)>,
) -> Map<Seq<char>, Seq<char>>
    decreases files.len(),
{
    if files.len() == 0 {
        fs
    } else {
        apply_writes(fs.insert(files[0].0, files[0].1), files.drop_first())
    }
}

/// The last content the plan writes to path `k`, if it writes there at all.
pub open spec fn last_write(files: Seq<(Seq<char>, Seq<char>)>, k: Seq<char>) -> Option<Seq<char>>
    decreases files.len(),
{
    if files.len() == 0 {
        None
    } else {
        match last_write(files.drop_first(), k) {
            Some(v) => Some(v),
            None => if files[0].0 == k {
                Some(files[0].1)
            } else {
                None
            },
        }
    }
}

/// After the writes run, a path holds the last content written to it, and a
/// path never written keeps what it had.
proof fn lemma_apply_writes_lookup(
    fs: Map<Seq<char>, Seq<char>>,
    files: Seq<(Seq<char>, Seq<char>)>,
    k: Seq<char>,
)
    ensures
        apply_writes(fs, files).dom().contains(k) <==> (fs.dom().contains(k) || last_write(
            files,
            k,
        ) is Some),
        apply_writes(fs, files).dom().contains(k) ==> apply_writes(fs, files)[k] == (match last_write(
            files,
            k,
        ) {
            Some(v) => v,
            None => fs[k],
        }),
    decreases files.len(),
{
    if files.len() == 0 {
    } else {
        lemma_apply_writes_lookup(fs.insert(files[0].0, files[0].1), files.drop_first(), k);
    }
}

/// Materialization is idempotent: running the same planned writes twice
/// leaves exactly the files that running them once leaves. Overwrite
/// semantics, not duplication — whatever the filesystem held before.
pub proof fn lemma_materialize_idempotent(
    fs: Map<Seq<char>, Seq<char>>,
    files: Seq<(Seq<char>, Seq<char>)>,
)
    ensures
        apply_writes(apply_writes(fs, files), files) == apply_writes(fs, files),
{
    let once = apply_writes(fs, files);
    let twice = apply_writes(once, files);
    assert forall|k: Seq<char>| #[trigger]
        twice.dom().contains(k) <==> once.dom().contains(k) by {
        lemma_apply_writes_lookup(fs, files, k);
        lemma_apply_writes_lookup(once, files, k);
    }
    assert forall|k: Seq<char>| once.dom().contains(k) implies #[trigger] twice[k] == once[k] by {
        lemma_apply_writes_lookup(fs, files, k);
        lemma_apply_writes_lookup(once, files, k);
    }
    assert(twice =~= once);
}

} // verus!
