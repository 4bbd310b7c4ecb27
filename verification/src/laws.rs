//! The guarantees of the scan engine, stated and proved over its models:
//! completion signalling, the depth and count limits, determinism, lexical
//! emission order, and the effect of stopping.

use vstd::prelude::*;
use vstd::utf8::encode_utf8;

use crate::entries::ItemModel;
use crate::filter::spec_report;
use crate::options::name_bytes;
use crate::options::OptionsModel;
use crate::order::lemma_lex_le_prepend;
use crate::order::lex_le;
use crate::walker::child_path;
use crate::walker::children_sorted;
use crate::walker::lemma_sort_sorted;
use crate::walker::spec_process;
use crate::walker::spec_sort;
use crate::walker::step_empty;
use crate::walker::ChildModel;
use crate::walker::StepModel;
use crate::walker::Walker;

verus! {

/// A walk is finished exactly when a strictly positive duration was
/// recorded; with no duration recorded yet (as in a fresh walker) it is
/// not finished, and once finished its duration is at least one
/// nanosecond — even a scan of an empty directory reads as finished.
pub proof fn lemma_finished_iff_positive_duration(w: Walker)
    ensures
        w.spec_finished() <==> w.duration_ns > 0,
        w.duration_ns == 0 ==> !w.spec_finished(),
        w.spec_finished() ==> w.duration_ns >= 1,
{
}

/// Below a directory standing at the depth limit or deeper, a listing
/// emits nothing and descends nowhere: reported entries never lie deeper
/// than `max_depth`, and no descent happens below it.
pub proof fn lemma_depth_cutoff(
    om: OptionsModel,
    dir: Seq<char>,
    depth: int,
    cs: Seq<ChildModel>,
    budget: int,
)
    requires
        depth + 1 > om.max_depth,
    ensures
        spec_process(om, dir, depth, cs, budget) == step_empty(),
    decreases cs.len(),
{
    if cs.len() > 0 && budget > 0 {
        lemma_depth_cutoff(om, dir, depth, cs.skip(1), budget);
    }
}

/// A well-formed walker schedules only the root or directories strictly
/// above the depth limit: every directory it ever hands out for listing
/// keeps all reported children at depth at most `max_depth`.
pub proof fn lemma_schedule_within_depth(w: Walker)
    requires
        w.wf(),
    ensures
        forall|i: int|
            0 <= i < w.pending@.len() ==> ((#[trigger] w.pending@[i]).1 == 0 || (
            w.pending@[i].1 as int) < w.options.max_depth as int),
{
}

/// A listing never reports more entries than its budget allows, and never
/// a negative count.
pub proof fn lemma_report_within_budget(
    om: OptionsModel,
    dir: Seq<char>,
    depth: int,
    cs: Seq<ChildModel>,
    budget: int,
)
    ensures
        0 <= spec_process(om, dir, depth, cs, budget).reported,
        spec_process(om, dir, depth, cs, budget).reported <= if budget >= 0 {
            budget
        } else {
            0
        },
    decreases cs.len(),
{
    if cs.len() > 0 && budget > 0 {
        lemma_report_within_budget(om, dir, depth, cs.skip(1), budget);
        lemma_report_within_budget(om, dir, depth, cs.skip(1), budget - 1);
    }
}

/// A well-formed walker never exceeds the reported-entry limit.
pub proof fn lemma_reported_within_limit(w: Walker)
    requires
        w.wf(),
    ensures
        w.reported <= w.options.max_file_cnt,
{
}

/// The walk is deterministic: the same options, position, listing and
/// budget yield the same items, the same schedule and the same count —
/// so a repeated scan of an unchanged tree reports the same paths.
pub proof fn lemma_scan_deterministic(
    om: OptionsModel,
    dir: Seq<char>,
    depth: int,
    cs: Seq<ChildModel>,
    budget: int,
    r1: StepModel,
    r2: StepModel,
)
    requires
        r1 == spec_process(om, dir, depth, cs, budget),
        r2 == spec_process(om, dir, depth, cs, budget),
    ensures
        r1 == r2,
{
}

/// A stopped walker is done: it hands out no further directories, so no
/// further items are produced after a stop settles.
pub proof fn lemma_stop_quiesces(w: Walker)
    requires
        w.stopped,
    ensures
        w.spec_done(),
{
}

/// Encoding distributes over concatenation of character sequences.
pub proof fn lemma_name_bytes_concat(a: Seq<char>, b: Seq<char>)
    ensures
        name_bytes(a + b) == name_bytes(a) + name_bytes(b),
    decreases a.len(),
{
    if a.len() == 0 {
        assert(a + b =~= b);
        assert(encode_utf8(a) =~= Seq::<u8>::empty());
        assert(name_bytes(a) + name_bytes(b) =~= name_bytes(b));
    } else {
        assert((a + b)[0] == a[0]);
        assert((a + b).drop_first() =~= a.drop_first() + b);
        lemma_name_bytes_concat(a.drop_first(), b);
        assert(name_bytes(a + b) =~= name_bytes(a) + name_bytes(b));
    }
}

/// Sibling order carries over to child paths: two children of the same
/// directory are ordered exactly as their names are.
pub proof fn lemma_child_path_order(dir: Seq<char>, n1: Seq<char>, n2: Seq<char>)
    ensures
        lex_le(name_bytes(child_path(dir, n1)), name_bytes(child_path(dir, n2))) == lex_le(
            name_bytes(n1),
            name_bytes(n2),
        ),
{
    lemma_name_bytes_concat(dir + "/"@, n1);
    lemma_name_bytes_concat(dir + "/"@, n2);
    lemma_lex_le_prepend(name_bytes(dir + "/"@), name_bytes(n1), name_bytes(n2));
}

/// The items of one listing are in lexical order of their paths.
pub open spec fn items_sorted(s: Seq<ItemModel>) -> bool {
    forall|i: int, j: int|
        0 <= i < j < s.len() ==> lex_le(
            name_bytes(#[trigger] s[i].path),
            name_bytes(#[trigger] s[j].path),
        )
}

/// Every item of a listing over children whose names all lie at or above
/// a bound has a path at or above the bound's child path.
proof fn lemma_process_path_bound(
    om: OptionsModel,
    dir: Seq<char>,
    depth: int,
    cs: Seq<ChildModel>,
    budget: int,
    nb: Seq<char>,
)
    requires
        forall|k: int| 0 <= k < cs.len() ==> lex_le(
            name_bytes(nb),
            name_bytes((#[trigger] cs[k]).name),
        ),
    ensures
        forall|t: int|
            0 <= t < spec_process(om, dir, depth, cs, budget).items.len() ==> lex_le(
                name_bytes(child_path(dir, nb)),
                name_bytes((#[trigger] spec_process(om, dir, depth, cs, budget).items[t]).path),
            ),
    decreases cs.len(),
{
    let r = spec_process(om, dir, depth, cs, budget);
    if cs.len() == 0 || budget <= 0 {
    } else {
        let c = cs[0];
        let tail = cs.skip(1);
        assert forall|k: int| 0 <= k < tail.len() implies lex_le(
            name_bytes(nb),
            name_bytes((#[trigger] tail[k]).name),
        ) by {
            assert(tail[k] == cs[k + 1]);
        }
        lemma_process_path_bound(om, dir, depth, tail, budget, nb);
        lemma_process_path_bound(om, dir, depth, tail, budget - 1, nb);
        lemma_child_path_order(dir, nb, c.name);
        let rest_same = spec_process(om, dir, depth, tail, budget);
        let rest_less = spec_process(om, dir, depth, tail, budget - 1);
        let rep = spec_report(om, name_bytes(c.name), c.is_dir, depth + 1);
        if !rep {
            assert(r.items == rest_same.items);
        } else if c.meta is None {
            assert(r.items.len() == 1 + rest_same.items.len());
            assert(r.items[0].path == child_path(dir, c.name));
            assert forall|t: int| 0 < t < r.items.len() implies lex_le(
                name_bytes(child_path(dir, nb)),
                name_bytes((#[trigger] r.items[t]).path),
            ) by {
                assert(r.items[t] == rest_same.items[t - 1]);
            }
        } else {
            assert(r.items.len() == 1 + rest_less.items.len());
            assert(r.items[0].path == child_path(dir, c.name));
            assert forall|t: int| 0 < t < r.items.len() implies lex_le(
                name_bytes(child_path(dir, nb)),
                name_bytes((#[trigger] r.items[t]).path),
            ) by {
                assert(r.items[t] == rest_less.items[t - 1]);
            }
        }
    }
}

/// Over sorted siblings, a listing emits its items in lexical path order.
pub proof fn lemma_process_emits_sorted(
    om: OptionsModel,
    dir: Seq<char>,
    depth: int,
    cs: Seq<ChildModel>,
    budget: int,
)
    requires
        children_sorted(cs),
    ensures
        items_sorted(spec_process(om, dir, depth, cs, budget).items),
    decreases cs.len(),
{
    let r = spec_process(om, dir, depth, cs, budget);
    if cs.len() == 0 || budget <= 0 {
    } else {
        let c = cs[0];
        let tail = cs.skip(1);
        assert forall|i: int, j: int| 0 <= i < j < tail.len() implies lex_le(
            name_bytes(#[trigger] tail[i].name),
            name_bytes(#[trigger] tail[j].name),
        ) by {
            assert(tail[i] == cs[i + 1]);
            assert(tail[j] == cs[j + 1]);
        }
        assert forall|k: int| 0 <= k < tail.len() implies lex_le(
            name_bytes(c.name),
            name_bytes((#[trigger] tail[k]).name),
        ) by {
            assert(tail[k] == cs[k + 1]);
            if k + 1 > 0 {
                assert(lex_le(name_bytes(cs[0].name), name_bytes(cs[k + 1].name)));
            }
        }
        lemma_process_emits_sorted(om, dir, depth, tail, budget);
        lemma_process_emits_sorted(om, dir, depth, tail, budget - 1);
        lemma_process_path_bound(om, dir, depth, tail, budget, c.name);
        lemma_process_path_bound(om, dir, depth, tail, budget - 1, c.name);
        let rest_same = spec_process(om, dir, depth, tail, budget);
        let rest_less = spec_process(om, dir, depth, tail, budget - 1);
        let rep = spec_report(om, name_bytes(c.name), c.is_dir, depth + 1);
        if !rep {
            assert(r.items == rest_same.items);
        } else {
            let rest = if c.meta is None {
                rest_same
            } else {
                rest_less
            };
            assert(r.items.len() == 1 + rest.items.len());
            assert(r.items[0].path == child_path(dir, c.name));
            assert forall|i: int, j: int| 0 <= i < j < r.items.len() implies lex_le(
                name_bytes(#[trigger] r.items[i].path),
                name_bytes(#[trigger] r.items[j].path),
            ) by {
                assert(r.items[j] == rest.items[j - 1]);
                if i == 0 {
                    assert(lex_le(
                        name_bytes(child_path(dir, c.name)),
                        name_bytes(rest.items[j - 1].path),
                    ));
                } else {
                    assert(r.items[i] == rest.items[i - 1]);
                }
            }
        }
    }
}

/// With `sorted` set, the walk sorts each listing before it processes it,
/// and what it emits for that listing is in lexical order of full paths.
pub proof fn lemma_sorted_scan_ordered(
    om: OptionsModel,
    dir: Seq<char>,
    depth: int,
    cs: Seq<ChildModel>,
    budget: int,
)
    ensures
        items_sorted(spec_process(om, dir, depth, spec_sort(cs), budget).items),
{
    lemma_sort_sorted(cs);
    lemma_process_emits_sorted(om, dir, depth, spec_sort(cs), budget);
}

} // verus!
