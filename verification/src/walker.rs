//! The traversal worker's state machine.
//!
//! The walker owns everything the walk decides: which directory is listed
//! next, which children of a listing are reported and in what order, which
//! child directories are descended into, when the reported-entry budget is
//! exhausted, and when the walk counts as finished. The caller performs the
//! directory reads and metadata calls and hands each listing in as plain
//! values.

use vstd::prelude::*;

use crate::entries::item_model;
use crate::entries::items_models;
use crate::entries::make_entry;
use crate::entries::meta_base_of;
use crate::entries::meta_zero;
use crate::entries::ItemModel;
use crate::entries::Metadata;
use crate::entries::ScandirResult;
use crate::filter::filter_entry;
use crate::filter::spec_descend;
use crate::filter::spec_report;
use crate::options::name_bytes;
use crate::options::Options;
use crate::options::OptionsModel;
use crate::order::lex_le;
use crate::order::lex_le_bytes;
use crate::order::lemma_lex_le_total;
use crate::order::lemma_lex_le_trans;

use vstd::string::StrSliceExecFns;
use vstd::string::StringExecFns;

verus! {

/// One child of a listed directory, as the caller hands it to the walker:
/// its base name, whether it is a directory (from the directory entry), and
/// the outcome of the metadata call (the stat data, or the failure message).
pub struct Child {
    pub name: String,
    pub is_dir: bool,
    pub meta: Result<Metadata, String>,
}

/// The model of one child: name as a character sequence, metadata present
/// or the error message.
pub ghost struct ChildModel {
    pub name: Seq<char>,
    pub is_dir: bool,
    pub meta: Option<Metadata>,
    pub err: Seq<char>,
}

/// Maps a child to its model.
pub open spec fn child_model(c: Child) -> ChildModel {
    ChildModel {
        name: c.name@,
        is_dir: c.is_dir,
        meta: match c.meta {
            Result::Ok(m) => Option::Some(m),
            Result::Err(_) => Option::None,
        },
        err: match c.meta {
            Result::Ok(_) => Seq::empty(),
            Result::Err(e) => e@,
        },
    }
}

/// Maps a run of children to their models.
pub open spec fn children_models(s: Seq<Child>) -> Seq<ChildModel> {
    s.map_values(|c: Child| child_model(c))
}

/// The path of a child of directory `dir`.
pub open spec fn child_path(dir: Seq<char>, name: Seq<char>) -> Seq<char> {
    dir + "/"@ + name
}

/// Joins a directory path and a base name.
pub fn join_path(dir: &str, name: &str) -> (r: String)
    ensures
        r@ == child_path(dir@, name@),
{
    let mut p = dir.to_owned();
    p.append("/");
    p.append(name);
    p
}

/// Siblings are sorted when every earlier name comes no later than every
/// later one, in lexical byte order.
pub open spec fn children_sorted(s: Seq<ChildModel>) -> bool {
    forall|i: int, j: int|
        0 <= i < j < s.len() ==> lex_le(
            name_bytes(#[trigger] s[i].name),
            name_bytes(#[trigger] s[j].name),
        )
}

/// Inserts a child into an already sorted run of siblings, before the first
/// sibling whose name comes no earlier.
pub open spec fn spec_insert(c: ChildModel, s: Seq<ChildModel>) -> Seq<ChildModel>
    decreases s.len(),
{
    if s.len() == 0 {
        seq![c]
    } else if lex_le(name_bytes(c.name), name_bytes(s[0].name)) {
        seq![c] + s
    } else {
        seq![s[0]] + spec_insert(c, s.skip(1))
    }
}

/// Sorts siblings by name: each child in turn is inserted into the sorted
/// run of those before it.
pub open spec fn spec_sort(s: Seq<ChildModel>) -> Seq<ChildModel>
    decreases s.len(),
{
    if s.len() == 0 {
        Seq::empty()
    } else {
        spec_insert(s.last(), spec_sort(s.drop_last()))
    }
}

/// Inserting keeps a sorted run sorted, adds exactly one sibling, and adds
/// no sibling but the inserted one.
pub proof fn lemma_insert_sorted(c: ChildModel, s: Seq<ChildModel>)
    requires
        children_sorted(s),
    ensures
        children_sorted(spec_insert(c, s)),
        spec_insert(c, s).len() == s.len() + 1,
        forall|j: int|
            0 <= j < spec_insert(c, s).len() ==> #[trigger] spec_insert(c, s)[j] == c
                || s.contains(spec_insert(c, s)[j]),
    decreases s.len(),
{
    let r = spec_insert(c, s);
    if s.len() == 0 {
        assert(r =~= seq![c]);
    } else if lex_le(name_bytes(c.name), name_bytes(s[0].name)) {
        assert(r =~= seq![c] + s);
        assert forall|j: int| 0 <= j < r.len() implies #[trigger] r[j] == c || s.contains(r[j]) by {
            if j > 0 {
                assert(r[j] == s[j - 1]);
            }
        }
        assert forall|i: int, j: int| 0 <= i < j < r.len() implies lex_le(
            name_bytes(#[trigger] r[i].name),
            name_bytes(#[trigger] r[j].name),
        ) by {
            if i == 0 {
                assert(r[j] == s[j - 1]);
                if j - 1 > 0 {
                    assert(lex_le(name_bytes(s[0].name), name_bytes(s[j - 1].name)));
                    lemma_lex_le_trans(
                        name_bytes(c.name),
                        name_bytes(s[0].name),
                        name_bytes(s[j - 1].name),
                    );
                }
            } else {
                assert(r[i] == s[i - 1]);
                assert(r[j] == s[j - 1]);
            }
        }
    } else {
        let tail = s.skip(1);
        assert forall|i: int, j: int| 0 <= i < j < tail.len() implies lex_le(
            name_bytes(#[trigger] tail[i].name),
            name_bytes(#[trigger] tail[j].name),
        ) by {
            assert(tail[i] == s[i + 1]);
            assert(tail[j] == s[j + 1]);
        }
        lemma_insert_sorted(c, tail);
        let rt = spec_insert(c, tail);
        assert(r =~= seq![s[0]] + rt);
        lemma_lex_le_total(name_bytes(c.name), name_bytes(s[0].name));
        assert forall|j: int| 0 <= j < r.len() implies #[trigger] r[j] == c || s.contains(r[j]) by {
            if j == 0 {
                assert(s[0] == s[0]);
                assert(s.contains(s[0]));
            } else {
                assert(r[j] == rt[j - 1]);
                if rt[j - 1] != c {
                    assert(tail.contains(rt[j - 1]));
                    let w = choose|w: int| 0 <= w < tail.len() && tail[w] == rt[j - 1];
                    assert(s[w + 1] == tail[w]);
                    assert(s.contains(s[w + 1]));
                }
            }
        }
        assert forall|i: int, j: int| 0 <= i < j < r.len() implies lex_le(
            name_bytes(#[trigger] r[i].name),
            name_bytes(#[trigger] r[j].name),
        ) by {
            if i == 0 {
                assert(r[j] == rt[j - 1]);
                if rt[j - 1] == c {
                    assert(lex_le(name_bytes(s[0].name), name_bytes(c.name)));
                } else {
                    assert(tail.contains(rt[j - 1]));
                    let w = choose|w: int| 0 <= w < tail.len() && tail[w] == rt[j - 1];
                    assert(tail[w] == s[w + 1]);
                    assert(lex_le(name_bytes(s[0].name), name_bytes(s[w + 1].name)));
                }
            } else {
                assert(r[i] == rt[i - 1]);
                assert(r[j] == rt[j - 1]);
            }
        }
    }
}

/// Inserting adds exactly the inserted sibling: the multiset of siblings
/// gains `c` and nothing else.
pub proof fn lemma_insert_permutes(c: ChildModel, s: Seq<ChildModel>)
    ensures
        spec_insert(c, s).to_multiset() == s.to_multiset().insert(c),
    decreases s.len(),
{
    broadcast use vstd::seq_lib::group_to_multiset_ensures;
    broadcast use vstd::multiset::group_multiset_axioms;

    let r = spec_insert(c, s);
    if s.len() == 0 {
        assert(r =~= Seq::<ChildModel>::empty().push(c));
        assert(s =~= Seq::<ChildModel>::empty());
        assert(r.to_multiset() =~= s.to_multiset().insert(c));
    } else if lex_le(name_bytes(c.name), name_bytes(s[0].name)) {
        vstd::seq_lib::lemma_multiset_commutative(seq![c], s);
        assert(seq![c] =~= Seq::<ChildModel>::empty().push(c));
        assert(r.to_multiset() =~= s.to_multiset().insert(c));
    } else {
        let tail = s.skip(1);
        lemma_insert_permutes(c, tail);
        vstd::seq_lib::lemma_multiset_commutative(seq![s[0]], spec_insert(c, tail));
        vstd::seq_lib::lemma_multiset_commutative(seq![s[0]], tail);
        assert(s =~= seq![s[0]] + tail);
        assert(seq![s[0]] =~= Seq::<ChildModel>::empty().push(s[0]));
        assert(r.to_multiset() =~= s.to_multiset().insert(c));
    }
}

/// Sorting reorders the siblings and does nothing else: the sorted run is
/// a permutation of the input.
pub proof fn lemma_sort_permutes(s: Seq<ChildModel>)
    ensures
        spec_sort(s).to_multiset() == s.to_multiset(),
    decreases s.len(),
{
    broadcast use vstd::seq_lib::group_to_multiset_ensures;

    if s.len() > 0 {
        lemma_sort_permutes(s.drop_last());
        lemma_insert_permutes(s.last(), spec_sort(s.drop_last()));
        assert(s =~= s.drop_last().push(s.last()));
    }
}

/// The sorted run of any sibling list is sorted and has the same length.
pub proof fn lemma_sort_sorted(s: Seq<ChildModel>)
    ensures
        children_sorted(spec_sort(s)),
        spec_sort(s).len() == s.len(),
    decreases s.len(),
{
    if s.len() > 0 {
        lemma_sort_sorted(s.drop_last());
        lemma_insert_sorted(s.last(), spec_sort(s.drop_last()));
    }
}

/// Splitting view of insertion: with `k` the first position whose sibling
/// name comes no earlier than the inserted one, insertion places the child
/// exactly at `k`.
proof fn lemma_insert_split(c: ChildModel, s: Seq<ChildModel>, k: int)
    requires
        0 <= k <= s.len(),
        forall|m: int| 0 <= m < k ==> !lex_le(name_bytes(c.name), name_bytes(#[trigger] s[m].name)),
        k < s.len() ==> lex_le(name_bytes(c.name), name_bytes(s[k].name)),
    ensures
        spec_insert(c, s) == s.take(k) + seq![c] + s.skip(k),
    decreases k,
{
    if k == 0 {
        if s.len() == 0 {
            assert(spec_insert(c, s) =~= s.take(0) + seq![c] + s.skip(0));
        } else {
            assert(lex_le(name_bytes(c.name), name_bytes(s[0].name)));
            assert(spec_insert(c, s) =~= s.take(0) + seq![c] + s.skip(0));
        }
    } else {
        assert(!lex_le(name_bytes(c.name), name_bytes(s[0].name)));
        let tail = s.skip(1);
        assert forall|m: int| 0 <= m < k - 1 implies !lex_le(
            name_bytes(c.name),
            name_bytes(#[trigger] tail[m].name),
        ) by {
            assert(tail[m] == s[m + 1]);
        }
        if k - 1 < tail.len() {
            assert(tail[k - 1] == s[k]);
        }
        lemma_insert_split(c, tail, k - 1);
        assert(spec_insert(c, s) =~= s.take(k) + seq![c] + s.skip(k));
    }
}

/// Finds the first position at or after `k` whose sibling name comes no
/// earlier than `cb`.
fn find_pos(out: &Vec<Child>, cb: &Vec<u8>, k: usize) -> (r: usize)
    requires
        k <= out.len(),
        forall|m: int| 0 <= m < k ==> !lex_le(cb@, name_bytes(#[trigger] out@[m].name@)),
    ensures
        k <= r <= out.len(),
        forall|m: int| 0 <= m < r ==> !lex_le(cb@, name_bytes(#[trigger] out@[m].name@)),
        r < out.len() ==> lex_le(cb@, name_bytes(out@[r as int].name@)),
    decreases out.len() - k,
{
    if k == out.len() {
        k
    } else {
        let ob = out[k].name.as_str().as_bytes_vec();
        if lex_le_bytes(cb, &ob) {
            k
        } else {
            find_pos(out, cb, k + 1)
        }
    }
}

/// Inserts one child into a run of siblings, keeping the run equal to the
/// model-level insertion.
fn insert_child(out: &mut Vec<Child>, c: Child)
    ensures
        children_models(final(out)@) == spec_insert(
            child_model(c),
            children_models(old(out)@),
        ),
{
    let cb = c.name.as_str().as_bytes_vec();
    let k = find_pos(out, &cb, 0);
    let ghost s = children_models(out@);
    proof {
        assert forall|m: int| 0 <= m < k implies !lex_le(
            name_bytes(child_model(c).name),
            name_bytes(#[trigger] s[m].name),
        ) by {
            assert(s[m] == child_model(out@[m]));
        }
        if k < out@.len() {
            assert(s[k as int] == child_model(out@[k as int]));
        }
        lemma_insert_split(child_model(c), s, k as int);
    }
    out.insert(k, c);
    proof {
        assert(children_models(final(out)@) =~= s.take(k as int) + seq![child_model(c)]
            + s.skip(k as int));
    }
}

/// Sorts siblings by name in lexical byte order; the result is exactly the
/// model-level sort of the input.
pub fn sort_children(children: Vec<Child>) -> (r: Vec<Child>)
    ensures
        children_models(r@) == spec_sort(children_models(children@)),
{
    let ghost orig = children_models(children@);
    let mut rest = children;
    let mut out: Vec<Child> = Vec::new();
    proof {
        assert(children_models(rest@) =~= orig.skip(0));
        assert(children_models(out@) =~= spec_sort(orig.take(0)));
    }
    while rest.len() > 0
        invariant
            rest@.len() <= orig.len(),
            children_models(rest@) =~= orig.skip(orig.len() - rest@.len()),
            children_models(out@) == spec_sort(orig.take(orig.len() - rest@.len())),
        decreases rest@.len(),
    {
        let ghost i = orig.len() - rest@.len();
        let ghost before = rest@;
        let c = rest.remove(0);
        proof {
            assert(child_model(before[0]) == children_models(before)[0]);
            assert(orig.skip(i)[0] == orig[i]);
            assert(child_model(c) == orig[i]);
            assert forall|m: int| 0 <= m < rest@.len() implies children_models(rest@)[m]
                == orig.skip(i + 1)[m] by {
                assert(rest@[m] == before[m + 1]);
                assert(children_models(before)[m + 1] == child_model(before[m + 1]));
                assert(orig.skip(i)[m + 1] == orig[i + 1 + m]);
                assert(orig.skip(i + 1)[m] == orig[i + 1 + m]);
            }
            assert(children_models(rest@) =~= orig.skip(i + 1));
        }
        insert_child(&mut out, c);
        proof {
            assert(orig.take(i + 1).last() == orig[i]);
            assert(orig.take(i + 1).drop_last() =~= orig.take(i));
        }
    }
    proof {
        assert(orig.take(orig.len() as int) =~= orig);
    }
    out
}

/// What one listing does to the walk: the items it emits, the directories
/// it schedules for descent, and how many non-error entries it reports.
pub ghost struct StepModel {
    pub items: Seq<ItemModel>,
    pub dirs: Seq<(Seq<char>, int)>,
    pub reported: int,
}

/// The empty step: nothing emitted, nothing scheduled.
pub open spec fn step_empty() -> StepModel {
    StepModel { items: Seq::empty(), dirs: Seq::empty(), reported: 0 }
}

/// The effect of processing the children of the directory `dir` (standing
/// at `depth` below the root) in their given order, with `budget` reported
/// entries still allowed. Children come at depth `depth + 1`. A child the
/// filter reports is emitted — as an entry when its metadata is present,
/// as an error record otherwise; errors do not consume the budget. A child
/// directory the filter descends into is scheduled. When the budget runs
/// out, nothing further is emitted or scheduled.
pub open spec fn spec_process(
    om: OptionsModel,
    dir: Seq<char>,
    depth: int,
    cs: Seq<ChildModel>,
    budget: int,
) -> StepModel
    decreases cs.len(),
{
    if cs.len() == 0 || budget <= 0 {
        step_empty()
    } else {
        let c = cs[0];
        let cd = depth + 1;
        let nb = name_bytes(c.name);
        let rep = spec_report(om, nb, c.is_dir, cd);
        let desc = spec_descend(om, nb, c.is_dir, cd);
        let p = child_path(dir, c.name);
        let pushes: Seq<(Seq<char>, int)> = if desc {
            seq![(p, cd)]
        } else {
            Seq::empty()
        };
        if !rep {
            let rest = spec_process(om, dir, depth, cs.skip(1), budget);
            StepModel { items: rest.items, dirs: pushes + rest.dirs, reported: rest.reported }
        } else {
            match c.meta {
                Option::None => {
                    let it = ItemModel {
                        path: p,
                        is_err: true,
                        msg: c.err,
                        ext: false,
                        meta: meta_zero(),
                    };
                    let rest = spec_process(om, dir, depth, cs.skip(1), budget);
                    StepModel {
                        items: seq![it] + rest.items,
                        dirs: pushes + rest.dirs,
                        reported: rest.reported,
                    }
                },
                Option::Some(m) => {
                    let it = ItemModel {
                        path: p,
                        is_err: false,
                        msg: Seq::empty(),
                        ext: om.ext,
                        meta: if om.ext {
                            m
                        } else {
                            meta_base_of(m)
                        },
                    };
                    let rest = spec_process(om, dir, depth, cs.skip(1), budget - 1);
                    StepModel {
                        items: seq![it] + rest.items,
                        dirs: pushes + rest.dirs,
                        reported: rest.reported + 1,
                    }
                },
            }
        }
    }
}

/// The model of one scheduled directory: its path and its depth.
pub open spec fn pend_model(p: (String, usize)) -> (Seq<char>, int) {
    (p.0@, p.1 as int)
}

/// Maps the schedule to its model.
pub open spec fn pending_models(s: Seq<(String, usize)>) -> Seq<(Seq<char>, int)> {
    s.map_values(|p: (String, usize)| pend_model(p))
}

/// The traversal worker's state: the directories still to list (a stack —
/// the walk is depth-first), the count of reported entries, the stop flag,
/// and the recorded duration (zero until the walk finished).
pub struct Walker {
    pub options: Options,
    pub pending: Vec<(String, usize)>,
    pub reported: usize,
    pub stopped: bool,
    pub duration_ns: u64,
}

impl Walker {
    /// Well-formedness: the reported count never exceeds the limit, and
    /// every scheduled directory is the root (depth 0) or stands strictly
    /// above the depth limit, so its children stay within it.
    pub open spec fn wf(self) -> bool {
        &&& self.reported <= self.options.max_file_cnt
        &&& forall|i: int|
            0 <= i < self.pending@.len() ==> ((#[trigger] self.pending@[i]).1 == 0 || (
            self.pending@[i].1 as int) < self.options.max_depth as int)
    }

    /// The walk has nothing further to do: it was stopped, the reported
    /// budget is exhausted, or no directory is left to list.
    pub open spec fn spec_done(self) -> bool {
        self.stopped || self.reported >= self.options.max_file_cnt || self.pending@.len() == 0
    }

    /// The walk counts as finished exactly when a strictly positive
    /// duration was recorded.
    pub open spec fn spec_finished(self) -> bool {
        self.duration_ns > 0
    }

    /// A fresh walk over `options.root_path`: only the root is scheduled,
    /// nothing reported, not stopped, not finished.
    pub fn new(options: Options) -> (w: Walker)
        ensures
            w.wf(),
            w.options == options,
            w.pending@.len() == 1,
            w.pending@[0].0 == options.root_path,
            w.pending@[0].1 == 0usize,
            w.reported == 0,
            w.stopped == false,
            w.duration_ns == 0,
            !w.spec_finished(),
    {
        let root = options.root_path.clone();
        let mut pending: Vec<(String, usize)> = Vec::new();
        pending.push((root, 0));
        Walker { options, pending, reported: 0, stopped: false, duration_ns: 0 }
    }

    /// Hands out the next directory to list, with its depth, and removes it
    /// from the schedule; `None` once the walk is done. A handed-out depth
    /// is the root's or stands strictly above the depth limit.
    pub fn next_dir(&mut self) -> (r: Option<(String, usize)>)
        requires
            old(self).wf(),
        ensures
            final(self).wf(),
            final(self).options == old(self).options,
            final(self).stopped == old(self).stopped,
            final(self).duration_ns == old(self).duration_ns,
            final(self).reported == old(self).reported,
            old(self).spec_done() ==> r is None && final(self).pending@ == old(self).pending@,
            !old(self).spec_done() ==> {
                &&& r == Some(old(self).pending@.last())
                &&& final(self).pending@ == old(self).pending@.drop_last()
            },
            r matches Some(d) ==> (d.1 == 0 || (d.1 as int) < old(self).options.max_depth as int),
    {
        if self.stopped || self.reported >= self.options.max_file_cnt {
            return None;
        }
        self.pending.pop()
    }

    /// Requests cooperative cancellation: the walk hands out no further
    /// directories. Nothing else changes; the walk is not yet finished.
    pub fn stop(&mut self)
        ensures
            final(self).stopped == true,
            final(self).options == old(self).options,
            final(self).pending == old(self).pending,
            final(self).reported == old(self).reported,
            final(self).duration_ns == old(self).duration_ns,
            final(self).spec_done(),
            old(self).wf() ==> final(self).wf(),
    {
        self.stopped = true;
    }

    /// Records the elapsed wall-clock time of the walk, in nanoseconds, on
    /// completion or cancellation. The recorded duration is strictly
    /// positive — an instant walk still counts as finished.
    pub fn finish(&mut self, elapsed_ns: u64)
        ensures
            final(self).duration_ns == if elapsed_ns == 0 {
                1u64
            } else {
                elapsed_ns
            },
            final(self).spec_finished(),
            final(self).options == old(self).options,
            final(self).pending == old(self).pending,
            final(self).reported == old(self).reported,
            final(self).stopped == old(self).stopped,
            old(self).wf() ==> final(self).wf(),
    {
        if elapsed_ns == 0 {
            self.duration_ns = 1;
        } else {
            self.duration_ns = elapsed_ns;
        }
    }

    /// Whether the walk has finished: a strictly positive duration was
    /// recorded.
    pub fn finished(&self) -> (r: bool)
        ensures
            r == self.spec_finished(),
    {
        self.duration_ns > 0
    }

    /// The recorded duration in nanoseconds: zero until the walk finished.
    pub fn duration_nanos(&self) -> (r: u64)
        ensures
            r == self.duration_ns,
    {
        self.duration_ns
    }

    /// Processes one directory listing: emits the items of the children the
    /// filter reports (in lexical order when `sorted` is set, in the given
    /// order otherwise), schedules the child directories the filter
    /// descends into (depth-first: they are listed before anything already
    /// scheduled), and counts the reported entries against the budget.
    pub fn process_listing(&mut self, dir_path: &str, depth: usize, children: Vec<Child>) -> (items:
        Vec<ScandirResult>)
        requires
            old(self).wf(),
            depth == 0 || (depth as int) < old(self).options.max_depth as int,
        ensures
            final(self).wf(),
            final(self).options == old(self).options,
            final(self).stopped == old(self).stopped,
            final(self).duration_ns == old(self).duration_ns,
            ({
                let om = old(self).options.model();
                let csm = children_models(children@);
                let cs1 = if om.sorted {
                    spec_sort(csm)
                } else {
                    csm
                };
                let full = spec_process(
                    om,
                    dir_path@,
                    depth as int,
                    cs1,
                    old(self).options.max_file_cnt - old(self).reported,
                );
                &&& items_models(items@) == full.items
                &&& pending_models(final(self).pending@) == pending_models(old(self).pending@)
                    + full.dirs.reverse()
                &&& final(self).reported == old(self).reported + full.reported
            }),
    {
        let ghost om = old(self).options.model();
        let ghost dirv = dir_path@;
        let ghost d = depth as int;
        let cs = if self.options.sorted {
            sort_children(children)
        } else {
            children
        };
        let ghost cs1 = children_models(cs@);
        let ghost full = spec_process(
            om,
            dirv,
            d,
            cs1,
            old(self).options.max_file_cnt - old(self).reported,
        );
        let cd = depth + 1;
        let mut items: Vec<ScandirResult> = Vec::new();
        let mut new_dirs: Vec<(String, usize)> = Vec::new();
        let mut i: usize = 0;
        proof {
            assert(cs1.skip(0) =~= cs1);
            assert(items_models(items@) + full.items =~= full.items);
            assert(pending_models(new_dirs@) + full.dirs =~= full.dirs);
        }
        while i < cs.len() && self.reported < self.options.max_file_cnt
            invariant
                old(self).wf(),
                self.options == old(self).options,
                self.stopped == old(self).stopped,
                self.duration_ns == old(self).duration_ns,
                self.pending == old(self).pending,
                old(self).reported <= self.reported <= self.options.max_file_cnt,
                i <= cs@.len(),
                children_models(cs@) == cs1,
                cd == depth + 1,
                om == old(self).options.model(),
                full == spec_process(
                    om,
                    dirv,
                    d,
                    cs1,
                    old(self).options.max_file_cnt - old(self).reported,
                ),
                dirv == dir_path@,
                d == depth as int,
                ({
                    let tail = spec_process(
                        om,
                        dirv,
                        d,
                        cs1.skip(i as int),
                        self.options.max_file_cnt - self.reported,
                    );
                    &&& items_models(items@) + tail.items == full.items
                    &&& pending_models(new_dirs@) + tail.dirs == full.dirs
                    &&& self.reported - old(self).reported + tail.reported == full.reported
                }),
                forall|m: int|
                    0 <= m < new_dirs@.len() ==> ((#[trigger] new_dirs@[m]).1 == cd && (
                    cd as int) < om.max_depth),
            decreases cs@.len() - i,
        {
            let ghost i0 = i as int;
            let ghost rep_before = self.reported as int;
            let ghost tail_pre = spec_process(
                om,
                dirv,
                d,
                cs1.skip(i0),
                self.options.max_file_cnt - rep_before,
            );
            proof {
                assert(cs1.skip(i0)[0] == cs1[i0]);
                assert(cs1.skip(i0).skip(1) =~= cs1.skip(i0 + 1));
                assert(children_models(cs@)[i0] == child_model(cs@[i0]));
            }
            let c = &cs[i];
            let (desc, rep) = filter_entry(&self.options, c.name.as_str(), c.is_dir, cd);
            let cpath = join_path(dir_path, c.name.as_str());
            proof {
                assert(self.options.model() == om);
                assert(rep == spec_report(om, name_bytes(cs1[i0].name), cs1[i0].is_dir, d + 1));
                assert(desc == spec_descend(om, name_bytes(cs1[i0].name), cs1[i0].is_dir, d + 1));
            }
            let ghost nd_pre = new_dirs@;
            let ghost items_pre = items@;
            let ghost pushes: Seq<(Seq<char>, int)> = if desc {
                seq![(child_path(dirv, cs1[i0].name), d + 1)]
            } else {
                Seq::<(Seq<char>, int)>::empty()
            };
            if desc {
                new_dirs.push((cpath.clone(), cd));
            }
            proof {
                assert(pending_models(new_dirs@) =~= pending_models(nd_pre) + pushes);
            }
            if rep {
                match &c.meta {
                    Ok(m) => {
                        let item = make_entry(cpath, m, &self.options.return_type);
                        proof {
                            assert(cs1[i0].meta == Some(*m));
                        }
                        items.push(item);
                        self.reported = self.reported + 1;
                        proof {
                            assert(items_models(items@) =~= items_models(items_pre).push(
                                item_model(item),
                            ));
                            let rest = spec_process(
                                om,
                                dirv,
                                d,
                                cs1.skip(i0 + 1),
                                self.options.max_file_cnt - self.reported,
                            );
                            assert(tail_pre.items == seq![item_model(item)] + rest.items);
                            assert(tail_pre.dirs == pushes + rest.dirs);
                            assert(tail_pre.reported == rest.reported + 1);
                            assert(items_models(items_pre).push(item_model(item)) + rest.items
                                =~= items_models(items_pre) + tail_pre.items);
                            assert(pending_models(nd_pre) + pushes + rest.dirs =~= pending_models(
                                nd_pre,
                            ) + tail_pre.dirs);
                        }
                    },
                    Err(e) => {
                        let item = ScandirResult::Error((cpath, e.clone()));
                        proof {
                            assert(cs1[i0].meta is None);
                            assert(cs1[i0].err == e@);
                        }
                        items.push(item);
                        proof {
                            assert(items_models(items@) =~= items_models(items_pre).push(
                                item_model(item),
                            ));
                            let rest = spec_process(
                                om,
                                dirv,
                                d,
                                cs1.skip(i0 + 1),
                                self.options.max_file_cnt - self.reported,
                            );
                            assert(tail_pre.items == seq![item_model(item)] + rest.items);
                            assert(tail_pre.dirs == pushes + rest.dirs);
                            assert(tail_pre.reported == rest.reported);
                            assert(items_models(items_pre).push(item_model(item)) + rest.items
                                =~= items_models(items_pre) + tail_pre.items);
                            assert(pending_models(nd_pre) + pushes + rest.dirs =~= pending_models(
                                nd_pre,
                            ) + tail_pre.dirs);
                        }
                    },
                }
            } else {
                proof {
                    let rest = spec_process(
                        om,
                        dirv,
                        d,
                        cs1.skip(i0 + 1),
                        self.options.max_file_cnt - self.reported,
                    );
                    assert(tail_pre.items == rest.items);
                    assert(tail_pre.dirs == pushes + rest.dirs);
                    assert(tail_pre.reported == rest.reported);
                    assert(pending_models(nd_pre) + pushes + rest.dirs =~= pending_models(nd_pre)
                        + tail_pre.dirs);
                }
            }
            i = i + 1;
        }
        proof {
            let tail = spec_process(
                om,
                dirv,
                d,
                cs1.skip(i as int),
                self.options.max_file_cnt - self.reported,
            );
            if i == cs@.len() {
                assert(cs1.skip(i as int).len() == 0);
            }
            assert(tail == step_empty());
            assert(items_models(items@) + tail.items =~= items_models(items@));
            assert(pending_models(new_dirs@) + tail.dirs =~= pending_models(new_dirs@));
            assert(items_models(items@) == full.items);
            assert(pending_models(new_dirs@) == full.dirs);
            assert(self.reported - old(self).reported == full.reported);
            assert(pending_models(new_dirs@).len() == new_dirs@.len());
        }
        let ghost pend0 = pending_models(old(self).pending@);
        while new_dirs.len() > 0
            invariant
                old(self).wf(),
                self.options == old(self).options,
                self.stopped == old(self).stopped,
                self.duration_ns == old(self).duration_ns,
                old(self).reported <= self.reported <= self.options.max_file_cnt,
                self.reported - old(self).reported == full.reported,
                om == old(self).options.model(),
                pend0 == pending_models(old(self).pending@),
                new_dirs@.len() <= full.dirs.len(),
                pending_models(new_dirs@) == full.dirs.take(new_dirs@.len() as int),
                pending_models(self.pending@) == pend0 + full.dirs.skip(
                    new_dirs@.len() as int,
                ).reverse(),
                forall|m: int|
                    0 <= m < new_dirs@.len() ==> ((#[trigger] new_dirs@[m]).1 == cd && (
                    cd as int) < om.max_depth),
                forall|m: int|
                    0 <= m < self.pending@.len() ==> ((#[trigger] self.pending@[m]).1 == 0 || (
                    self.pending@[m].1 as int) < self.options.max_depth as int),
            decreases new_dirs@.len(),
        {
            let ghost k = new_dirs@.len() as int;
            let ghost nd_pre = new_dirs@;
            let ghost pending_pre = self.pending@;
            match new_dirs.pop() {
                Some(dir) => {
                    proof {
                        assert(pending_models(nd_pre)[k - 1] == pend_model(nd_pre[k - 1]));
                        assert(full.dirs.take(k)[k - 1] == full.dirs[k - 1]);
                        assert(pend_model(dir) == full.dirs[k - 1]);
                    }
                    self.pending.push(dir);
                    proof {
                        assert forall|m: int| 0 <= m < new_dirs@.len() implies pending_models(
                            new_dirs@,
                        )[m] == full.dirs.take(k - 1)[m] by {
                            assert(new_dirs@[m] == nd_pre[m]);
                            assert(pending_models(new_dirs@)[m] == pend_model(new_dirs@[m]));
                            assert(pending_models(nd_pre)[m] == pend_model(nd_pre[m]));
                            assert(full.dirs.take(k)[m] == full.dirs[m]);
                        }
                        assert(pending_models(new_dirs@) =~= full.dirs.take(k - 1));
                        assert(pending_models(self.pending@) =~= pending_models(pending_pre).push(
                            pend_model(dir),
                        ));
                        assert(full.dirs.skip(k - 1).reverse() =~= full.dirs.skip(k).reverse().push(
                            full.dirs[k - 1],
                        ));
                        assert(pending_models(self.pending@) =~= pend0 + full.dirs.skip(
                            k - 1,
                        ).reverse());
                    }
                },
                None => {},
            }
        }
        proof {
            assert(full.dirs.skip(0).reverse() =~= full.dirs.reverse());
            assert(pending_models(self.pending@) == pend0 + full.dirs.reverse());
        }
        items
    }
}

} // verus!

