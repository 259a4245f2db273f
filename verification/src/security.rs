//! Path validation: keeps every write inside its declared base directory
//! and rejects user-supplied names that could traverse out of it.
//!
//! These checks are pure functions over path strings.  Containment is
//! decided segment-wise over already-canonicalized paths, never by plain
//! substring comparison, so `/base-evil` is not accepted as lying inside
//! `/base`.

use vstd::prelude::*;

use crate::error::AgentSyncError;
use crate::text;

verus! {

/// Whether the path string is absolute.
pub open spec fn is_absolute_path(s: Seq<char>) -> bool {
    s.len() > 0 && s[0] == '/'
}

/// The path's segments: the parts between `/` separators, empty parts
/// dropped.
pub open spec fn path_segments(s: Seq<char>) -> Seq<Seq<char>> {
    text::split_spec(s, '/').filter(|p: Seq<char>| p.len() > 0)
}

/// Whether some segment of the path is `..`.
pub open spec fn has_dotdot_segment(s: Seq<char>) -> bool {
    path_segments(s).contains(".."@)
}

/// Whether a path is acceptable as a relative path: not absolute and free
/// of `..` segments.
pub open spec fn relative_path_ok(s: Seq<char>) -> bool {
    !is_absolute_path(s) && !has_dotdot_segment(s)
}

/// The path's segments, as owned strings.
fn segments_of(s: &str) -> (r: Vec<String>)
    ensures
        r.deep_view() == path_segments(s@),
{
    let parts = text::split_char(s, '/');
    let mut out: Vec<String> = Vec::new();
    let mut i: usize = 0;
    proof {
        assert(out.deep_view() =~= parts.deep_view().take(0).filter(|p: Seq<char>| p.len() > 0));
    }
    while i < parts.len()
        invariant
            0 <= i <= parts.len(),
            out.deep_view() == parts.deep_view().take(i as int).filter(
                |p: Seq<char>| p.len() > 0,
            ),
        decreases parts.len() - i,
    {
        proof {
            let pv = parts.deep_view();
            assert(pv.take(i + 1).drop_last() =~= pv.take(i as int));
            assert(pv.take(i + 1).last() == pv[i as int]);
            reveal_with_fuel(Seq::filter, 2);
        }
        if parts[i].as_str().unicode_len() > 0 {
            out.push(parts[i].clone());
        }
        i = i + 1;
    }
    proof {
        assert(parts.deep_view().take(parts.len() as int) =~= parts.deep_view());
    }
    out
}

/// Rejects, with a `PathTraversal` error, any path that is absolute or
/// holds a `..` segment; accepts every other path.  Meant for user-supplied
/// names, before any filesystem access.
pub fn validate_relative_path(path: &str) -> (r: Result<(), AgentSyncError>)
    ensures
        r is Ok <==> relative_path_ok(path@),
        r matches Err(e) ==> e matches AgentSyncError::PathTraversal { base, target }
            && base@ == "."@ && target@ == path@,
{
    let n: usize = path.unicode_len();
    if n > 0 && path.get_char(0) == '/' {
        return Err(
            AgentSyncError::PathTraversal {
                base: String::from_str("."),
                target: path.to_owned(),
            },
        );
    }
    let segs = segments_of(path);
    let mut i: usize = 0;
    while i < segs.len()
        invariant
            0 <= i <= segs.len(),
            segs.deep_view() == path_segments(path@),
            forall|j: int| 0 <= j < i ==> segs.deep_view()[j] != ".."@,
        decreases segs.len() - i,
    {
        if text::str_eq(segs[i].as_str(), "..") {
            proof {
                assert(path_segments(path@)[i as int] == ".."@);
                assert(path_segments(path@).contains(".."@));
            }
            return Err(
                AgentSyncError::PathTraversal {
                    base: String::from_str("."),
                    target: path.to_owned(),
                },
            );
        }
        i = i + 1;
    }
    proof {
        if path_segments(path@).contains(".."@) {
            let k = choose|k: int|
                0 <= k < path_segments(path@).len() && path_segments(path@)[k] == ".."@;
            assert(segs.deep_view()[k] == ".."@);
        }
    }
    Ok(())
}

/// Whether `base`'s segments are a prefix of `target`'s.
pub open spec fn segments_contained(base: Seq<char>, target: Seq<char>) -> bool {
    let b = path_segments(base);
    let t = path_segments(target);
    b.len() <= t.len() && b == t.take(b.len() as int)
}

/// Decides containment of `target` in `base` for two canonicalized paths:
/// succeeds exactly when every path segment of `base` is matched, in order
/// and from the start, by `target`'s segments.  Fails with a
/// `PathTraversal` error naming both paths.  The caller canonicalizes both
/// paths first; for a target that does not exist yet, its nearest existing
/// ancestor is canonicalized and the remaining components re-appended.
pub fn validate_path_within_base(base: &str, target: &str) -> (r: Result<(), AgentSyncError>)
    ensures
        r is Ok <==> segments_contained(base@, target@),
        r matches Err(e) ==> e matches AgentSyncError::PathTraversal { base: b, target: t }
            && b@ == base@ && t@ == target@,
{
    let bsegs = segments_of(base);
    let tsegs = segments_of(target);
    if bsegs.len() > tsegs.len() {
        return Err(
            AgentSyncError::PathTraversal { base: base.to_owned(), target: target.to_owned() },
        );
    }
    let mut i: usize = 0;
    while i < bsegs.len()
        invariant
            0 <= i <= bsegs.len(),
            bsegs.len() <= tsegs.len(),
            bsegs.deep_view() == path_segments(base@),
            tsegs.deep_view() == path_segments(target@),
            forall|j: int| 0 <= j < i ==> bsegs.deep_view()[j] == tsegs.deep_view()[j],
        decreases bsegs.len() - i,
    {
        if !text::str_eq(bsegs[i].as_str(), tsegs[i].as_str()) {
            assert(path_segments(base@)[i as int] != path_segments(target@).take(
                path_segments(base@).len() as int,
            )[i as int]);
            return Err(
                AgentSyncError::PathTraversal { base: base.to_owned(), target: target.to_owned() },
            );
        }
        i = i + 1;
    }
    proof {
        assert(path_segments(base@) =~= path_segments(target@).take(
            path_segments(base@).len() as int,
        ));
    }
    Ok(())
}

/// Whether every entry of `dirs` is acceptable as a base directory: not
/// empty, and, when relative, free of `..` segments.
pub open spec fn base_dir_ok(d: Seq<char>) -> bool {
    d.len() > 0 && (is_absolute_path(d) || relative_path_ok(d))
}

/// The first entry of `dirs` that [`base_dir_ok`] rejects, if any.
pub open spec fn first_bad_base_dir(dirs: Seq<Seq<char>>) -> Option<Seq<char>>
    decreases dirs.len(),
{
    if dirs.len() == 0 {
        None
    } else if !base_dir_ok(dirs[0]) {
        Some(dirs[0])
    } else {
        first_bad_base_dir(dirs.drop_first())
    }
}

/// The error message for a base directory with a traversal sequence.
pub open spec fn bad_base_dir_message(d: Seq<char>) -> Seq<char> {
    if d.len() == 0 {
        "baseDirs cannot contain empty strings"@
    } else {
        "Invalid baseDir '"@ + d + "': contains path traversal sequence"@
    }
}

proof fn lemma_first_bad_base_dir(dirs: Seq<Seq<char>>, i: int)
    requires
        0 <= i < dirs.len(),
        !base_dir_ok(dirs[i]),
        forall|j: int| 0 <= j < i ==> base_dir_ok(dirs[j]),
    ensures
        first_bad_base_dir(dirs) == Some(dirs[i]),
    decreases i,
{
    if i > 0 {
        lemma_first_bad_base_dir(dirs.drop_first(), i - 1);
    }
}

proof fn lemma_no_bad_base_dir(dirs: Seq<Seq<char>>)
    requires
        forall|j: int| 0 <= j < dirs.len() ==> base_dir_ok(dirs[j]),
    ensures
        first_bad_base_dir(dirs) is None,
    decreases dirs.len(),
{
    if dirs.len() > 0 {
        lemma_no_bad_base_dir(dirs.drop_first());
    }
}

/// Checks a configuration's list of base directories: the list must not be
/// empty, no entry may be the empty string, and a relative entry must not
/// hold a `..` segment.  Absolute entries are accepted.  The error names
/// the first offending entry.
pub fn validate_base_dirs(base_dirs: &Vec<String>) -> (r: Result<(), AgentSyncError>)
    ensures
        r is Ok <==> base_dirs.deep_view().len() > 0 && first_bad_base_dir(
            base_dirs.deep_view(),
        ) is None,
        r matches Err(e) ==> e matches AgentSyncError::ConfigError { error } && (
        if base_dirs.deep_view().len() == 0 {
            error@ == "baseDirs cannot be empty"@
        } else {
            first_bad_base_dir(base_dirs.deep_view()) matches Some(d) && error@
                == bad_base_dir_message(d)
        }),
{
    if base_dirs.len() == 0 {
        return Err(
            AgentSyncError::ConfigError { error: String::from_str("baseDirs cannot be empty") },
        );
    }
    let mut i: usize = 0;
    while i < base_dirs.len()
        invariant
            0 <= i <= base_dirs.len(),
            forall|j: int| 0 <= j < i ==> base_dir_ok(base_dirs.deep_view()[j]),
        decreases base_dirs.len() - i,
    {
        let d = &base_dirs[i];
        if d.as_str().unicode_len() == 0 {
            proof {
                lemma_first_bad_base_dir(base_dirs.deep_view(), i as int);
            }
            return Err(
                AgentSyncError::ConfigError {
                    error: String::from_str("baseDirs cannot contain empty strings"),
                },
            );
        }
        let dn: usize = d.as_str().unicode_len();
        let is_abs = dn > 0 && d.as_str().get_char(0) == '/';
        if !is_abs {
            if validate_relative_path(d.as_str()).is_err() {
                proof {
                    lemma_first_bad_base_dir(base_dirs.deep_view(), i as int);
                }
                let mut msg = String::from_str("Invalid baseDir '");
                msg.append(d.as_str());
                msg.append("': contains path traversal sequence");
                return Err(AgentSyncError::ConfigError { error: msg });
            }
        }
        i = i + 1;
    }
    proof {
        lemma_no_bad_base_dir(base_dirs.deep_view());
    }
    Ok(())
}

} // verus!
