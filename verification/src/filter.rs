//! The filter engine: glob-style name matching and the per-node decisions
//! (descend? report?) that parametrize the walk.
//!
//! Patterns know `*` (any run of bytes) and `?` (any one byte) and are
//! matched against the base name only. Matching and ordering are defined
//! over the UTF-8 bytes of names; case-insensitive matching folds the
//! ASCII letters of both sides.

use vstd::prelude::*;

use crate::options::name_bytes;
use crate::options::opt_pattern_views;
use crate::options::pattern_views;
use crate::options::Options;
use crate::options::OptionsModel;

use vstd::string::StrSliceExecFns;

verus! {

/// The byte value of `*`.
pub const STAR: u8 = 42;

/// The byte value of `?`.
pub const QMARK: u8 = 63;

/// The byte value of `.`.
pub const DOT: u8 = 46;

/// A name is hidden when it starts with a dot.
pub open spec fn spec_hidden(name: Seq<u8>) -> bool {
    name.len() > 0 && name[0] == DOT
}

/// ASCII upper-case letters fold to lower case; every other byte stays.
pub open spec fn spec_fold_byte(b: u8) -> u8 {
    if 65 <= b && b <= 90 {
        (b + 32) as u8
    } else {
        b
    }
}

/// Folds every byte of a name or pattern.
pub open spec fn spec_fold(s: Seq<u8>) -> Seq<u8> {
    s.map_values(|b: u8| spec_fold_byte(b))
}

/// Glob matching: `*` matches any run of bytes, `?` any one byte, every
/// other pattern byte only itself; the whole name must be consumed.
pub open spec fn spec_glob(p: Seq<u8>, s: Seq<u8>) -> bool
    decreases p.len(), s.len(),
{
    if p.len() == 0 {
        s.len() == 0
    } else if p[0] == STAR {
        spec_glob(p.skip(1), s) || (s.len() > 0 && spec_glob(p, s.skip(1)))
    } else {
        s.len() > 0 && (p[0] == QMARK || p[0] == s[0]) && spec_glob(p.skip(1), s.skip(1))
    }
}

/// Glob matching under the case policy: case-insensitive matching folds
/// both the pattern and the name first.
pub open spec fn spec_glob_ci(p: Seq<u8>, s: Seq<u8>, case_sensitive: bool) -> bool {
    if case_sensitive {
        spec_glob(p, s)
    } else {
        spec_glob(spec_fold(p), spec_fold(s))
    }
}

/// Whether the name matches at least one of the patterns.
pub open spec fn spec_matches_any(ps: Seq<Seq<u8>>, name: Seq<u8>, case_sensitive: bool) -> bool {
    exists|k: int| 0 <= k < ps.len() && spec_glob_ci(ps[k], name, case_sensitive)
}

/// The include/exclude rule: a name matching any exclude pattern is out;
/// when an include list is present, only names matching at least one
/// include pattern are in; no include list means everything not excluded.
pub open spec fn spec_allowed(
    inc: Option<Seq<Seq<u8>>>,
    exc: Option<Seq<Seq<u8>>>,
    name: Seq<u8>,
    case_sensitive: bool,
) -> bool {
    &&& match exc {
        Option::Some(es) => !spec_matches_any(es, name, case_sensitive),
        Option::None => true,
    }
    &&& match inc {
        Option::Some(is) => spec_matches_any(is, name, case_sensitive),
        Option::None => true,
    }
}

/// Whether a node at `depth` below the root is reported: not hidden-skipped,
/// within the depth limit, and allowed by the patterns of its kind.
pub open spec fn spec_report(om: OptionsModel, name: Seq<u8>, is_dir: bool, depth: int) -> bool {
    &&& !(om.skip_hidden && spec_hidden(name))
    &&& depth <= om.max_depth
    &&& if is_dir {
        spec_allowed(om.dir_include, om.dir_exclude, name, om.case_sensitive)
    } else {
        spec_allowed(om.file_include, om.file_exclude, name, om.case_sensitive)
    }
}

/// Whether a directory at `depth` below the root is descended into: a
/// directory, not hidden-skipped, strictly shallower than the depth limit
/// (so its children still lie within it), and allowed by the directory
/// patterns.
pub open spec fn spec_descend(om: OptionsModel, name: Seq<u8>, is_dir: bool, depth: int) -> bool {
    &&& is_dir
    &&& !(om.skip_hidden && spec_hidden(name))
    &&& depth < om.max_depth
    &&& spec_allowed(om.dir_include, om.dir_exclude, name, om.case_sensitive)
}

/// A directory that is descended into is always reported.
pub proof fn lemma_descend_implies_report(om: OptionsModel, name: Seq<u8>, depth: int)
    requires
        spec_descend(om, name, true, depth),
    ensures
        spec_report(om, name, true, depth),
{
}

fn fold_byte(b: u8) -> (r: u8)
    ensures
        r == spec_fold_byte(b),
{
    if b >= 65 && b <= 90 {
        b + 32
    } else {
        b
    }
}

fn fold_bytes(v: &Vec<u8>) -> (r: Vec<u8>)
    ensures
        r@ == spec_fold(v@),
{
    let mut r: Vec<u8> = Vec::new();
    let mut i: usize = 0;
    while i < v.len()
        invariant
            i <= v.len(),
            r@.len() == i,
            forall|k: int| 0 <= k < i ==> r@[k] == spec_fold_byte(v@[k]),
        decreases v.len() - i,
    {
        r.push(fold_byte(v[i]));
        i += 1;
    }
    proof {
        assert(r@ =~= spec_fold(v@));
    }
    r
}

fn glob_match_at(p: &Vec<u8>, s: &Vec<u8>, i: usize, j: usize) -> (r: bool)
    requires
        i <= p.len(),
        j <= s.len(),
    ensures
        r == spec_glob(p@.skip(i as int), s@.skip(j as int)),
    decreases p@.len() - i + s@.len() - j,
{
    proof {
        if i < p@.len() {
            assert(p@.skip(i as int)[0] == p@[i as int]);
            assert(p@.skip(i as int).skip(1) =~= p@.skip(i as int + 1));
        }
        if j < s@.len() {
            assert(s@.skip(j as int)[0] == s@[j as int]);
            assert(s@.skip(j as int).skip(1) =~= s@.skip(j as int + 1));
        }
    }
    if i == p.len() {
        j == s.len()
    } else if p[i] == STAR {
        if glob_match_at(p, s, i + 1, j) {
            true
        } else if j < s.len() {
            glob_match_at(p, s, i, j + 1)
        } else {
            false
        }
    } else if j < s.len() && (p[i] == QMARK || p[i] == s[j]) {
        glob_match_at(p, s, i + 1, j + 1)
    } else {
        false
    }
}

fn glob_ci(p: &Vec<u8>, s: &Vec<u8>, case_sensitive: bool) -> (r: bool)
    ensures
        r == spec_glob_ci(p@, s@, case_sensitive),
{
    proof {
        assert(p@.skip(0) =~= p@);
        assert(s@.skip(0) =~= s@);
        assert(spec_fold(p@).skip(0) =~= spec_fold(p@));
        assert(spec_fold(s@).skip(0) =~= spec_fold(s@));
    }
    if case_sensitive {
        glob_match_at(p, s, 0, 0)
    } else {
        let pf = fold_bytes(p);
        let sf = fold_bytes(s);
        glob_match_at(&pf, &sf, 0, 0)
    }
}

fn matches_any(ps: &Vec<String>, name: &Vec<u8>, case_sensitive: bool) -> (r: bool)
    ensures
        r == spec_matches_any(pattern_views(ps@), name@, case_sensitive),
{
    let mut k: usize = 0;
    while k < ps.len()
        invariant
            k <= ps.len(),
            forall|m: int|
                0 <= m < k ==> !spec_glob_ci(pattern_views(ps@)[m], name@, case_sensitive),
        decreases ps.len() - k,
    {
        let pb = ps[k].as_str().as_bytes_vec();
        proof {
            assert(pattern_views(ps@)[k as int] == name_bytes(ps@[k as int]@));
        }
        if glob_ci(&pb, name, case_sensitive) {
            return true;
        }
        k += 1;
    }
    false
}

fn allowed_for(
    inc: &Option<Vec<String>>,
    exc: &Option<Vec<String>>,
    name: &Vec<u8>,
    case_sensitive: bool,
) -> (r: bool)
    ensures
        r == spec_allowed(
            opt_pattern_views(*inc),
            opt_pattern_views(*exc),
            name@,
            case_sensitive,
        ),
{
    match exc {
        Some(es) => {
            if matches_any(es, name, case_sensitive) {
                return false;
            }
        },
        None => {},
    }
    match inc {
        Some(is) => matches_any(is, name, case_sensitive),
        None => true,
    }
}

/// The two decisions of the filter engine for one node: `(descend, report)`.
/// The root itself is never passed through here: a walk always begins by
/// listing the root's children, which stand at depth 1.
pub fn filter_entry(o: &Options, name: &str, is_dir: bool, depth: usize) -> (r: (bool, bool))
    ensures
        r.0 == spec_descend(o.model(), name_bytes(name@), is_dir, depth as int),
        r.1 == spec_report(o.model(), name_bytes(name@), is_dir, depth as int),
{
    let nb = name.as_bytes_vec();
    if o.skip_hidden && nb.len() > 0 && nb[0] == DOT {
        return (false, false);
    }
    if is_dir {
        let allowed = allowed_for(&o.dir_include, &o.dir_exclude, &nb, o.case_sensitive);
        (allowed && depth < o.max_depth, allowed && depth <= o.max_depth)
    } else {
        let allowed = allowed_for(&o.file_include, &o.file_exclude, &nb, o.case_sensitive);
        (false, allowed && depth <= o.max_depth)
    }
}

} // verus!
