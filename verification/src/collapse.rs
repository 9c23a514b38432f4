use vstd::prelude::*;

use crate::comments::{
    depth_class_text, lemma_subtree_rows_shape, lemma_thread_rows_append, lemma_thread_rows_shape,
    max_row_depth, rows_fit, subtree_rows, thread_rows, thread_shaped, CommentNode, CommentRowModel,
};
use crate::text::{
    contains_str, decimal_nat, lemma_decimal_reads_back, lemma_parse_digits,
    lemma_remove_all_from_digits, occurs_at, parse_i32, remove_all, remove_all_str, spec_contains,
    spec_parse_i32,
};

verus! {

/// What the style classes of a comment row say about its depth.
#[derive(Clone, Copy, Debug, PartialEq, Eq, Structural)]
pub enum DepthClass {
    /// No class of the row names a depth.
    Absent,
    /// The first class that names a depth gives this one.
    Depth(i32),
    /// The first class that names a depth does not hold a number after its prefix.
    Malformed,
}

/// The text that marks a class as naming a depth.
pub open spec fn depth_marker() -> Seq<char> {
    "comment--depth"@
}

/// The prefix taken out of a depth class before its number is read.
pub open spec fn depth_prefix() -> Seq<char> {
    "comment--depth-"@
}

/// What one class says: nothing unless it contains the marker; otherwise the
/// `i32` written in it once every occurrence of the prefix is taken out.
pub open spec fn class_depth(class: Seq<char>) -> DepthClass {
    if !spec_contains(class, depth_marker()) {
        DepthClass::Absent
    } else {
        match spec_parse_i32(remove_all(class, depth_prefix())) {
            Some(v) => DepthClass::Depth(v as i32),
            None => DepthClass::Malformed,
        }
    }
}

/// What the classes of a row say: the first class that contains the marker decides.
pub open spec fn row_depth(classes: Seq<Seq<char>>) -> DepthClass
    decreases classes.len(),
{
    if classes.len() == 0 {
        DepthClass::Absent
    } else if spec_contains(classes[0], depth_marker()) {
        class_depth(classes[0])
    } else {
        row_depth(classes.drop_first())
    }
}

/// Reads the depth of a comment row from its style classes, in order.
pub fn read_row_depth(classes: &Vec<String>) -> (d: DepthClass)
    ensures
        d == row_depth(classes@.map_values(|c: String| c@)),
{
    let ghost views = classes@.map_values(|c: String| c@);
    let mut i: usize = 0;
    proof {
        reveal_strlit("comment--depth");
        reveal_strlit("comment--depth-");
        assert(views.skip(0) =~= views);
    }
    while i < classes.len()
        invariant
            i <= classes.len(),
            views == classes@.map_values(|c: String| c@),
            row_depth(views) == row_depth(views.skip(i as int)),
            "comment--depth"@ == depth_marker(),
            "comment--depth-"@ == depth_prefix(),
            depth_prefix().len() > 0,
        decreases classes.len() - i,
    {
        let class = classes[i].as_str();
        proof {
            assert(views.skip(i as int)[0] == class@);
            assert(views.skip(i as int).drop_first() =~= views.skip(i + 1));
        }
        if contains_str(class, "comment--depth") {
            let rest = remove_all_str(class, "comment--depth-");
            return match parse_i32(rest.as_str()) {
                Some(v) => DepthClass::Depth(v),
                None => DepthClass::Malformed,
            };
        }
        i = i + 1;
    }
    proof {
        assert(views.skip(i as int) =~= Seq::<Seq<char>>::empty());
    }
    DepthClass::Absent
}


/// The depth of the clicked row: `0` when its classes name none; `None` when
/// they name one that cannot be read.
pub open spec fn clicked_depth(d: DepthClass) -> Option<int> {
    match d {
        DepthClass::Absent => Some(0),
        DepthClass::Depth(v) => Some(v as int),
        DepthClass::Malformed => None,
    }
}

/// `acc` before the indices of `o`, when there are any.
pub open spec fn prepend(acc: Seq<int>, o: Option<Seq<int>>) -> Option<Seq<int>> {
    match o {
        Some(t) => Some(acc + t),
        None => None,
    }
}

/// The rows, from `j` on, whose visibility a click on a row at depth `cd`
/// changes: rows that name no depth are passed over; a deeper row is changed;
/// the first row at depth `cd` ends the walk; shallower rows are passed over.
/// `None` when the walk meets a row whose depth cannot be read.
pub open spec fn collapse_targets(rows: Seq<DepthClass>, cd: int, j: int) -> Option<Seq<int>>
    decreases rows.len() - j,
{
    if j < 0 || j >= rows.len() {
        Some(Seq::empty())
    } else {
        match rows[j] {
            DepthClass::Absent => collapse_targets(rows, cd, j + 1),
            DepthClass::Malformed => None,
            DepthClass::Depth(v) => {
                if v == cd {
                    Some(Seq::empty())
                } else if v > cd {
                    prepend(seq![j], collapse_targets(rows, cd, j + 1))
                } else {
                    collapse_targets(rows, cd, j + 1)
                }
            },
        }
    }
}

/// What a click on a comment row does.
pub struct CollapsePlan {
    /// Show the clicked row's "comments hidden" notice (otherwise hide it).
    pub show_notice: bool,
    /// The visibility given to every row of `rows`.
    pub rows_visible: bool,
    /// The rows whose visibility changes, in order.
    pub rows: Vec<usize>,
}

/// The plan for a click on row `clicked` of a comment list whose rows name the
/// depths `rows`, when the row after the clicked one is currently visible
/// (`next_row_visible`): if it is, the clicked row's replies get hidden and the
/// notice shown, otherwise the replies are shown again and the notice hidden.
/// `None` where a row whose depth has to be read names one that cannot be read.
pub fn collapse_plan(rows: &Vec<DepthClass>, clicked: usize, next_row_visible: bool) -> (plan:
    Option<CollapsePlan>)
    requires
        clicked < rows.len(),
    ensures
        match plan {
            Some(p) => {
                &&& clicked_depth(rows@[clicked as int]) matches Some(cd) && collapse_targets(
                    rows@,
                    cd,
                    clicked + 1,
                ) == Some(p.rows@.map_values(|k: usize| k as int))
                &&& p.show_notice == next_row_visible
                &&& p.rows_visible == !next_row_visible
            },
            None => clicked_depth(rows@[clicked as int]) matches Some(cd) ==> collapse_targets(
                rows@,
                cd,
                clicked + 1,
            ) is None,
        },
{
    let cd: i32 = match rows[clicked] {
        DepthClass::Absent => 0,
        DepthClass::Depth(v) => v,
        DepthClass::Malformed => {
            return None;
        },
    };
    let ghost cdi = cd as int;
    let is_hiding = next_row_visible;
    let mut targets: Vec<usize> = Vec::new();
    let mut j: usize = clicked + 1;
    let ghost whole = collapse_targets(rows@, cdi, clicked + 1);
    proof {
        assert(whole == prepend(targets@.map_values(|k: usize| k as int), collapse_targets(
            rows@,
            cdi,
            j as int,
        ))) by {
            assert(targets@.map_values(|k: usize| k as int) =~= Seq::<int>::empty());
            match whole {
                Some(t) => {
                    assert(Seq::<int>::empty() + t =~= t);
                },
                None => {},
            }
        }
    }
    while j < rows.len()
        invariant
            clicked < j <= rows.len(),
            cdi == cd as int,
            is_hiding == next_row_visible,
            clicked_depth(rows@[clicked as int]) == Some(cdi),
            whole == collapse_targets(rows@, cdi, clicked + 1),
            whole == prepend(targets@.map_values(|k: usize| k as int), collapse_targets(
                rows@,
                cdi,
                j as int,
            )),
        decreases rows.len() - j,
    {
        let ghost acc = targets@.map_values(|k: usize| k as int);
        let ghost later = collapse_targets(rows@, cdi, j + 1);
        match rows[j] {
            DepthClass::Malformed => {
                return None;
            },
            DepthClass::Absent => {},
            DepthClass::Depth(v) => {
                if v == cd {
                    proof {
                        assert(rows@[j as int] == DepthClass::Depth(v));
                        assert(collapse_targets(rows@, cdi, j as int) == Some(Seq::<int>::empty()));
                        assert(acc + Seq::<int>::empty() =~= acc);
                    }
                    return Some(
                        CollapsePlan { show_notice: is_hiding, rows_visible: !is_hiding, rows: targets },
                    );
                } else if v > cd {
                    targets.push(j);
                    proof {
                        assert(targets@.map_values(|k: usize| k as int) =~= acc + seq![j as int]);
                        match later {
                            Some(t) => {
                                assert(acc + (seq![j as int] + t) =~= (acc + seq![j as int]) + t);
                            },
                            None => {},
                        }
                    }
                }
            },
        }
        j = j + 1;
    }
    proof {
        assert(targets@.map_values(|k: usize| k as int) + Seq::<int>::empty() =~= targets@.map_values(
            |k: usize| k as int,
        ));
    }
    Some(CollapsePlan { show_notice: is_hiding, rows_visible: !is_hiding, rows: targets })
}

/// The class a row is tagged with reads back as the row's depth: the depth the
/// collapse handler reads from a row is the depth the row was drawn at.
pub proof fn lemma_depth_class_round_trip(depth: nat)
    requires
        depth <= i32::MAX,
    ensures
        class_depth(depth_class_text(depth)) == DepthClass::Depth(depth as i32),
        row_depth(seq![depth_class_text(depth)]) == DepthClass::Depth(depth as i32),
{
    reveal_strlit("comment--depth");
    reveal_strlit("comment--depth-");
    let dec = decimal_nat(depth);
    let s = depth_class_text(depth);
    lemma_decimal_reads_back(depth);
    assert(s.subrange(0, 14) =~= depth_marker());
    assert(occurs_at(s, depth_marker(), 0));
    assert(s.take(15) =~= depth_prefix());
    assert(s.skip(15) =~= dec);
    lemma_remove_all_from_digits(dec, depth_prefix());
    assert(remove_all(s, depth_prefix()) == dec);
    lemma_parse_digits(dec);
    assert(seq![s][0] == s);
}

/// The depth a row names (`0` when it names none or cannot be read).
pub open spec fn named_depth(d: DepthClass) -> int {
    match d {
        DepthClass::Depth(v) => v as int,
        _ => 0,
    }
}

/// Every row names a depth, and from one row to the next the depth rises by at
/// most one level (it may fall by any number), as in the rows of a comment thread.
pub open spec fn rises_by_at_most_one(rows: Seq<DepthClass>) -> bool {
    &&& forall|j: int| 0 <= j < rows.len() ==> (#[trigger] rows[j]) is Depth
    &&& forall|j: int|
        0 <= j < rows.len() - 1 ==> named_depth(#[trigger] rows[j + 1]) <= named_depth(rows[j]) + 1
}

/// The indices `from, from + 1, ..., to - 1`.
pub open spec fn index_range(from: int, to: int) -> Seq<int> {
    Seq::new((to - from) as nat, |k: int| from + k)
}

proof fn lemma_walk_past_run(rows: Seq<DepthClass>, cd: int, j: int)
    requires
        rises_by_at_most_one(rows),
        0 <= j,
        j < rows.len() ==> named_depth(rows[j]) <= cd,
    ensures
        collapse_targets(rows, cd, j) == Some(Seq::<int>::empty()),
    decreases rows.len() - j,
{
    if j < rows.len() {
        assert(rows[j] is Depth);
        if named_depth(rows[j]) < cd {
            if j + 1 < rows.len() {
                assert(named_depth(rows[j + 1]) <= named_depth(rows[j]) + 1);
            }
            lemma_walk_past_run(rows, cd, j + 1);
        }
    }
}

proof fn lemma_walk_run(rows: Seq<DepthClass>, cd: int, e: int, j: int)
    requires
        rises_by_at_most_one(rows),
        0 <= j <= e <= rows.len(),
        forall|i: int| j <= i < e ==> named_depth(#[trigger] rows[i]) > cd,
        e < rows.len() ==> named_depth(rows[e]) <= cd,
    ensures
        collapse_targets(rows, cd, j) == Some(index_range(j, e)),
    decreases e - j,
{
    if j == e {
        lemma_walk_past_run(rows, cd, e);
        assert(index_range(j, e) =~= Seq::<int>::empty());
    } else {
        assert(rows[j] is Depth);
        assert(named_depth(rows[j]) > cd);
        lemma_walk_run(rows, cd, e, j + 1);
        assert(seq![j] + index_range(j + 1, e) =~= index_range(j, e));
    }
}

/// A click on row `c` changes exactly the rows after it that are deeper than it,
/// up to the first one that is not: on rows whose depth rises by at most one
/// level at a time, the walk never reaches a deeper row past that point.
pub proof fn lemma_collapse_takes_deeper_run(rows: Seq<DepthClass>, c: int, e: int)
    requires
        rises_by_at_most_one(rows),
        0 <= c < e <= rows.len(),
        forall|i: int| c < i < e ==> named_depth(#[trigger] rows[i]) > named_depth(rows[c]),
        e < rows.len() ==> named_depth(rows[e]) <= named_depth(rows[c]),
    ensures
        clicked_depth(rows[c]) == Some(named_depth(rows[c])),
        collapse_targets(rows, named_depth(rows[c]), c + 1) == Some(index_range(c + 1, e)),
{
    assert(rows[c] is Depth);
    lemma_walk_run(rows, named_depth(rows[c]), e, c + 1);
}

/// What the collapse handler reads from rows drawn as `rows`: each row carries
/// its depth class as its one style class.
pub open spec fn read_back(rows: Seq<CommentRowModel>) -> Seq<DepthClass> {
    rows.map_values(|r: CommentRowModel| row_depth(seq![r.depth_class]))
}

proof fn lemma_read_back_depths(rows: Seq<CommentRowModel>, depth: nat)
    requires
        rows_fit(rows),
        thread_shaped(rows, depth),
    ensures
        rises_by_at_most_one(read_back(rows)),
        forall|k: int|
            0 <= k < rows.len() ==> read_back(rows)[k] == DepthClass::Depth(
                (#[trigger] rows[k]).depth as i32,
            ),
{
    let rb = read_back(rows);
    assert forall|k: int| 0 <= k < rows.len() implies rb[k] == DepthClass::Depth(
        (#[trigger] rows[k]).depth as i32,
    ) by {
        assert(rows[k].depth <= max_row_depth());
        lemma_depth_class_round_trip(rows[k].depth);
    }
    assert forall|j: int| 0 <= j < rb.len() implies (#[trigger] rb[j]) is Depth by {
        assert(rb[j] == DepthClass::Depth(rows[j].depth as i32));
    }
    assert forall|j: int| 0 <= j < rb.len() - 1 implies named_depth(#[trigger] rb[j + 1])
        <= named_depth(rb[j]) + 1 by {
        assert(rb[j] == DepthClass::Depth(rows[j].depth as i32));
        assert(rb[j + 1] == DepthClass::Depth(rows[j + 1].depth as i32));
        assert(rows[j].depth <= max_row_depth());
        assert(rows[j + 1].depth <= max_row_depth());
        assert(rows[j + 1].depth <= rows[j + 1 - 1].depth + 1);
    }
}

/// Clicking the row of a comment, wherever it stands in a drawn thread, changes
/// exactly the rows of its replies: the rows right after it, down to the end of
/// its subtree.
pub proof fn lemma_click_toggles_replies(
    before: Seq<CommentRowModel>,
    c: CommentNode,
    depth: nat,
    after: Seq<CommentRowModel>,
    top: nat,
)
    requires
        thread_shaped(before + subtree_rows(c, depth) + after, top),
        rows_fit(before + subtree_rows(c, depth) + after),
        after.len() > 0 ==> after[0].depth <= depth,
    ensures
        ({
            let rows = read_back(before + subtree_rows(c, depth) + after);
            let p = before.len() as int;
            &&& clicked_depth(rows[p]) == Some(depth as int)
            &&& collapse_targets(rows, depth as int, p + 1) == Some(
                index_range(p + 1, p + subtree_rows(c, depth).len()),
            )
        }),
{
    let all = before + subtree_rows(c, depth) + after;
    let sub = subtree_rows(c, depth);
    let p = before.len() as int;
    let e = p + sub.len();
    lemma_subtree_rows_shape(c, depth);
    lemma_read_back_depths(all, top);
    let rb = read_back(all);
    assert(all[p] == sub[0]);
    assert(rb[p] == DepthClass::Depth(depth as i32));
    assert forall|i: int| p < i < e implies named_depth(#[trigger] rb[i]) > named_depth(rb[p]) by {
        assert(all[i] == sub[i - p]);
        assert(rb[i] == DepthClass::Depth(all[i].depth as i32));
        assert(all[i].depth <= max_row_depth());
    }
    if e < rb.len() {
        assert(all[e] == after[0]);
        assert(rb[e] == DepthClass::Depth(all[e].depth as i32));
        assert(all[e].depth <= max_row_depth());
    }
    lemma_collapse_takes_deeper_run(rb, p, e);
}

/// In the rows of a list of comments shown at depth `depth`, clicking the row of
/// the comment at position `i` of the list changes exactly the rows of its replies.
pub proof fn lemma_click_toggles_replies_in_thread(cs: Seq<CommentNode>, depth: nat, i: int)
    requires
        0 <= i < cs.len(),
        rows_fit(thread_rows(cs, depth)),
    ensures
        ({
            let rows = read_back(thread_rows(cs, depth));
            let p = thread_rows(cs.take(i), depth).len() as int;
            &&& rows[p] == DepthClass::Depth(depth as i32)
            &&& collapse_targets(rows, depth as int, p + 1) == Some(
                index_range(p + 1, p + 1 + thread_rows(cs[i].replies@, depth + 1).len()),
            )
        }),
{
    let before = thread_rows(cs.take(i), depth);
    let sub = subtree_rows(cs[i], depth);
    let after = thread_rows(cs.skip(i + 1), depth);
    assert(cs =~= cs.take(i) + (seq![cs[i]] + cs.skip(i + 1)));
    lemma_thread_rows_append(cs.take(i), seq![cs[i]] + cs.skip(i + 1), depth);
    lemma_thread_rows_append(seq![cs[i]], cs.skip(i + 1), depth);
    assert(seq![cs[i]].drop_last() =~= Seq::<CommentNode>::empty());
    assert(seq![cs[i]].last() == cs[i]);
    assert(thread_rows(Seq::<CommentNode>::empty(), depth) =~= Seq::<CommentRowModel>::empty());
    assert(thread_rows(seq![cs[i]], depth) == thread_rows(Seq::<CommentNode>::empty(), depth)
        + subtree_rows(cs[i], depth));
    assert(thread_rows(seq![cs[i]], depth) =~= sub);
    assert(thread_rows(cs, depth) =~= before + sub + after);
    lemma_thread_rows_shape(cs, depth);
    lemma_thread_rows_shape(cs.skip(i + 1), depth);
    lemma_click_toggles_replies(before, cs[i], depth, after, depth);
    lemma_read_back_depths(thread_rows(cs, depth), depth);
    assert(thread_rows(cs, depth)[before.len() as int] == sub[0]);
    lemma_subtree_rows_shape(cs[i], depth);
}


/// One step of the walk of a click: a row that names no depth, or a shallower
/// one, is passed over; a deeper row is changed and the walk goes on; a row at
/// the clicked depth ends the walk; a row whose depth cannot be read stops it with
/// no plan.
pub proof fn lemma_collapse_walk_step(rows: Seq<DepthClass>, cd: int, j: int)
    requires
        0 <= j < rows.len(),
    ensures
        rows[j] is Absent ==> collapse_targets(rows, cd, j) == collapse_targets(rows, cd, j + 1),
        rows[j] is Malformed ==> collapse_targets(rows, cd, j) is None,
        rows[j] is Depth && named_depth(rows[j]) < cd ==> collapse_targets(rows, cd, j)
            == collapse_targets(rows, cd, j + 1),
        rows[j] is Depth && named_depth(rows[j]) == cd ==> collapse_targets(rows, cd, j) == Some(
            Seq::<int>::empty(),
        ),
        rows[j] is Depth && named_depth(rows[j]) > cd ==> collapse_targets(rows, cd, j) == match collapse_targets(
            rows,
            cd,
            j + 1,
        ) {
            Some(t) => Some(seq![j] + t),
            None => None,
        },
        collapse_targets(rows, cd, rows.len() as int) == Some(Seq::<int>::empty()),
{
}

/// A row's depth is what the first of its classes that contains `comment--depth`
/// says; classes before it, and every class after it, play no part.
pub proof fn lemma_first_depth_class_decides(
    before: Seq<Seq<char>>,
    class: Seq<char>,
    after: Seq<Seq<char>>,
)
    requires
        forall|i: int| 0 <= i < before.len() ==> !spec_contains(#[trigger] before[i], depth_marker()),
        spec_contains(class, depth_marker()),
    ensures
        row_depth(before + seq![class] + after) == class_depth(class),
        row_depth(before) == DepthClass::Absent,
    decreases before.len(),
{
    if before.len() > 0 {
        let rest = before.drop_first();
        lemma_first_depth_class_decides(rest, class, after);
        assert((before + seq![class] + after).drop_first() =~= rest + seq![class] + after);
        assert((before + seq![class] + after)[0] == before[0]);
        assert(!spec_contains(before[0], depth_marker()));
    } else {
        assert((before + seq![class] + after)[0] == class);
    }
}
} // verus!
