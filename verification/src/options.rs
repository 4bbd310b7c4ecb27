//! The scan options: set once at scan start, read-only during the walk.

use vstd::prelude::*;
use vstd::utf8::encode_utf8;

use crate::entries::ReturnType;

verus! {

/// The configuration of one scan.
#[derive(Debug, Clone)]
pub struct Options {
    /// Absolute, existence-checked starting directory.
    pub root_path: String,
    /// Emit sibling entries in lexical order instead of OS-native order.
    pub sorted: bool,
    /// Exclude dot-prefixed entries from both descent and reporting.
    pub skip_hidden: bool,
    /// Maximum directory nesting depth below the root to descend into.
    pub max_depth: usize,
    /// Upper bound on the number of reported (non-error) entries.
    pub max_file_cnt: usize,
    /// Allow patterns for directory names.
    pub dir_include: Option<Vec<String>>,
    /// Deny patterns for directory names.
    pub dir_exclude: Option<Vec<String>>,
    /// Allow patterns for file names.
    pub file_include: Option<Vec<String>>,
    /// Deny patterns for file names.
    pub file_exclude: Option<Vec<String>>,
    /// Whether include/exclude matching is case-sensitive.
    pub case_sensitive: bool,
    /// Which entry shape the scan produces.
    pub return_type: ReturnType,
}

/// The mathematical model of the options: names and patterns as byte
/// sequences, limits as unbounded integers.
pub ghost struct OptionsModel {
    pub root_path: Seq<char>,
    pub sorted: bool,
    pub skip_hidden: bool,
    pub max_depth: int,
    pub max_file_cnt: int,
    pub dir_include: Option<Seq<Seq<u8>>>,
    pub dir_exclude: Option<Seq<Seq<u8>>>,
    pub file_include: Option<Seq<Seq<u8>>>,
    pub file_exclude: Option<Seq<Seq<u8>>>,
    pub case_sensitive: bool,
    pub ext: bool,
}

/// The UTF-8 bytes of a name or pattern; matching and ordering are defined
/// over these.
pub open spec fn name_bytes(s: Seq<char>) -> Seq<u8> {
    encode_utf8(s)
}

/// The byte sequences of a pattern list.
pub open spec fn pattern_views(ps: Seq<String>) -> Seq<Seq<u8>> {
    ps.map_values(|p: String| name_bytes(p@))
}

/// The byte sequences of an optional pattern list.
pub open spec fn opt_pattern_views(o: Option<Vec<String>>) -> Option<Seq<Seq<u8>>> {
    match o {
        Option::None => Option::None,
        Option::Some(v) => Option::Some(pattern_views(v@)),
    }
}

impl Options {
    /// The model of this options value.
    pub open spec fn model(self) -> OptionsModel {
        OptionsModel {
            root_path: self.root_path@,
            sorted: self.sorted,
            skip_hidden: self.skip_hidden,
            max_depth: self.max_depth as int,
            max_file_cnt: self.max_file_cnt as int,
            dir_include: opt_pattern_views(self.dir_include),
            dir_exclude: opt_pattern_views(self.dir_exclude),
            file_include: opt_pattern_views(self.file_include),
            file_exclude: opt_pattern_views(self.file_exclude),
            case_sensitive: self.case_sensitive,
            ext: self.return_type is Ext,
        }
    }

    /// The default options for a scan of `root_path`: no limits, no
    /// filters, OS-native order, basic entries.
    pub fn new(root_path: String) -> (r: Options)
        ensures
            r.root_path == root_path,
            r.sorted == false,
            r.skip_hidden == false,
            r.max_depth == usize::MAX,
            r.max_file_cnt == usize::MAX,
            r.dir_include is None,
            r.dir_exclude is None,
            r.file_include is None,
            r.file_exclude is None,
            r.case_sensitive == false,
            r.return_type is Base,
    {
        Options {
            root_path,
            sorted: false,
            skip_hidden: false,
            max_depth: usize::MAX,
            max_file_cnt: usize::MAX,
            dir_include: None,
            dir_exclude: None,
            file_include: None,
            file_exclude: None,
            case_sensitive: false,
            return_type: ReturnType::Base,
        }
    }
}

} // verus!
