use vstd::prelude::*;

use crate::post::PostData;
use crate::text::{decimal_int, decimal_nat, digit_char, push_decimal_i64, push_decimal_u64};

verus! {

/// A comment with the replies made to it, as the comment view reads it.
pub struct CommentNode {
    pub score: i64,
    pub author: String,
    pub body: String,
    pub replies: Vec<CommentNode>,
}

/// What the comment view shows of one comment: the row's style classes, its
/// indentation and its two labels.
pub struct CommentRow {
    /// How deep the comment sits in the thread (0 for a reply to the post).
    pub depth: u8,
    /// `comment--depth-<depth>`: the class the collapse handler reads the depth back from.
    pub depth_class: String,
    /// `comment-depth-<depth mod 5>`: the class that picks the row's colour.
    pub shade_class: String,
    /// The left margin of the row, five pixels per level.
    pub margin_start: i32,
    /// `<small><score> - u/<author></small>`.
    pub header_markup: String,
    /// The comment's body, shown as markup.
    pub body_markup: String,
}

/// The mathematical value of a [`CommentRow`].
pub struct CommentRowModel {
    pub depth: nat,
    pub depth_class: Seq<char>,
    pub shade_class: Seq<char>,
    pub margin_start: int,
    pub header_markup: Seq<char>,
    pub body_markup: Seq<char>,
}

impl View for CommentRow {
    type V = CommentRowModel;

    open spec fn view(&self) -> CommentRowModel {
        CommentRowModel {
            depth: self.depth as nat,
            depth_class: self.depth_class@,
            shade_class: self.shade_class@,
            margin_start: self.margin_start as int,
            header_markup: self.header_markup@,
            body_markup: self.body_markup@,
        }
    }
}

/// The class that tags a row with its depth.
pub open spec fn depth_class_text(depth: nat) -> Seq<char> {
    "comment--depth-"@ + decimal_nat(depth)
}

/// The class that gives a row the colour of its depth; colours repeat every five levels.
pub open spec fn shade_class_text(depth: nat) -> Seq<char> {
    "comment-depth-"@ + decimal_nat(depth % 5)
}

/// The header line of a comment.
pub open spec fn comment_header_text(score: int, author: Seq<char>) -> Seq<char> {
    "<small>"@ + decimal_int(score) + " - u/"@ + author + "</small>"@
}

/// The row that shows comment `c` at depth `depth`.
pub open spec fn comment_row(c: CommentNode, depth: nat) -> CommentRowModel {
    CommentRowModel {
        depth: depth,
        depth_class: depth_class_text(depth),
        shade_class: shade_class_text(depth),
        margin_start: (depth * 5) as int,
        header_markup: comment_header_text(c.score as int, c.author@),
        body_markup: c.body@,
    }
}

/// The deepest level at which a row can be drawn: the margin is computed in a
/// `u8` as five times the depth.
pub open spec fn max_row_depth() -> nat {
    51
}

/// One comment of a thread, ready to be turned into a row.
pub struct CommentBox<'a> {
    comment: &'a CommentNode,
    depth: u8,
}

impl<'a> CommentBox<'a> {
    /// The comment this box shows.
    pub closed spec fn comment(&self) -> CommentNode {
        *self.comment
    }

    /// The depth the comment is shown at.
    pub closed spec fn depth(&self) -> nat {
        self.depth as nat
    }

    /// The comment `comment`, shown at depth `depth`.
    pub fn new(comment: &'a CommentNode, depth: u8) -> (b: Self)
        ensures
            b.comment() == *comment,
            b.depth() == depth,
    {
        CommentBox { comment, depth }
    }

    /// The row for this comment.
    pub fn widget(&self) -> (row: CommentRow)
        requires
            self.depth() <= max_row_depth(),
        ensures
            row@ == comment_row(self.comment(), self.depth()),
    {
        let depth = self.depth;
        let mut depth_class = String::from_str("comment--depth-");
        push_decimal_u64(&mut depth_class, depth as u64);
        let mut shade_class = String::from_str("comment-depth-");
        push_decimal_u64(&mut shade_class, (depth % 5) as u64);
        let margin: u8 = depth * 5;
        let mut header = String::from_str("<small>");
        push_decimal_i64(&mut header, self.comment.score);
        header.append(" - u/");
        header.append(self.comment.author.as_str());
        header.append("</small>");
        CommentRow {
            depth,
            depth_class,
            shade_class,
            margin_start: margin as i32,
            header_markup: header,
            body_markup: self.comment.body.clone(),
        }
    }
}

} // verus!

verus! {

/// The rows of the comments `cs` shown at depth `depth`: each comment's row,
/// followed by the rows of its replies one level deeper, in order.
pub open spec fn thread_rows(cs: Seq<CommentNode>, depth: nat) -> Seq<CommentRowModel>
    decreases cs,
{
    if cs.len() == 0 {
        Seq::empty()
    } else {
        thread_rows(cs.drop_last(), depth) + subtree_rows(cs.last(), depth)
    }
}

/// The rows of comment `c` at depth `depth`: its own row, then the rows of its replies.
pub open spec fn subtree_rows(c: CommentNode, depth: nat) -> Seq<CommentRowModel>
    decreases c,
{
    seq![comment_row(c, depth)] + thread_rows(c.replies@, depth + 1)
}


/// Every row is shallow enough to be drawn (see [`max_row_depth`]).
pub open spec fn rows_fit(rows: Seq<CommentRowModel>) -> bool {
    forall|k: int| 0 <= k < rows.len() ==> #[trigger] rows[k].depth <= max_row_depth()
}

/// The rows of two lists of comments one after the other are the rows of the
/// first list followed by the rows of the second.
pub proof fn lemma_thread_rows_append(a: Seq<CommentNode>, b: Seq<CommentNode>, depth: nat)
    ensures
        thread_rows(a + b, depth) == thread_rows(a, depth) + thread_rows(b, depth),
    decreases b.len(),
{
    if b.len() == 0 {
        assert(a + b =~= a);
        assert(thread_rows(a, depth) + thread_rows(b, depth) =~= thread_rows(a, depth));
    } else {
        let ab = a + b;
        assert(ab.drop_last() =~= a + b.drop_last());
        assert(ab.last() == b.last());
        lemma_thread_rows_append(a, b.drop_last(), depth);
        assert(thread_rows(a, depth) + thread_rows(b.drop_last(), depth) + subtree_rows(
            b.last(),
            depth,
        ) =~= thread_rows(a, depth) + thread_rows(b, depth));
    }
}

proof fn lemma_rows_fit_concat(a: Seq<CommentRowModel>, b: Seq<CommentRowModel>)
    ensures
        rows_fit(a + b) <==> rows_fit(a) && rows_fit(b),
{
    if rows_fit(a + b) {
        assert forall|k: int| 0 <= k < a.len() implies #[trigger] a[k].depth <= max_row_depth() by {
            assert((a + b)[k] == a[k]);
        }
        assert forall|k: int| 0 <= k < b.len() implies #[trigger] b[k].depth <= max_row_depth() by {
            assert((a + b)[a.len() + k] == b[k]);
        }
    }
    if rows_fit(a) && rows_fit(b) {
        assert forall|k: int| 0 <= k < (a + b).len() implies #[trigger] (a + b)[k].depth
            <= max_row_depth() by {
            if k < a.len() {
                assert((a + b)[k] == a[k]);
            } else {
                assert((a + b)[k] == b[k - a.len()]);
            }
        }
    }
}

/// The comments of a post, with the post itself.
pub struct CommentList {
    pub post: PostData,
    pub comments: Vec<CommentNode>,
}

/// The comment thread of a post, ready to be turned into rows.
pub struct CommentListBox<'a> {
    comment_list: &'a CommentList,
}

impl<'a> CommentListBox<'a> {
    /// The thread this box shows.
    pub closed spec fn comment_list(&self) -> CommentList {
        *self.comment_list
    }

    /// The thread `comment_list`.
    pub fn new(comment_list: &'a CommentList) -> (b: Self)
        ensures
            b.comment_list() == *comment_list,
    {
        CommentListBox { comment_list }
    }

    /// The rows of the whole thread, top-level comments at depth 0, each comment
    /// followed by its replies; `None` when some comment sits deeper than a row can
    /// be drawn.
    pub fn widget(&self) -> (rows: Option<Vec<CommentRow>>)
        ensures
            match rows {
                Some(r) => {
                    &&& rows_fit(thread_rows(self.comment_list().comments@, 0))
                    &&& r@.map_values(|x: CommentRow| x@) == thread_rows(
                        self.comment_list().comments@,
                        0,
                    )
                },
                None => !rows_fit(thread_rows(self.comment_list().comments@, 0)),
            },
    {
        let mut rows: Vec<CommentRow> = Vec::new();
        let ok = Self::pack_comments_listbox_loop(&self.comment_list.comments, 0, &mut rows);
        if ok {
            proof {
                assert(rows@.map_values(|x: CommentRow| x@) =~= Seq::<CommentRowModel>::empty()
                    + thread_rows(self.comment_list().comments@, 0));
            }
            Some(rows)
        } else {
            None
        }
    }

    /// Appends to `rows` the rows of `comments` at depth `depth`; `false` when one
    /// of them would sit too deep to be drawn.
    fn pack_comments_listbox_loop(
        comments: &Vec<CommentNode>,
        depth: u8,
        rows: &mut Vec<CommentRow>,
    ) -> (ok: bool)
        requires
            depth <= max_row_depth() + 1,
        ensures
            ok == rows_fit(thread_rows(comments@, depth as nat)),
            ok ==> final(rows)@.map_values(|x: CommentRow| x@) == old(rows)@.map_values(
                |x: CommentRow| x@,
            ) + thread_rows(comments@, depth as nat),
        decreases comments@,
    {
        let ghost start = old(rows)@.map_values(|x: CommentRow| x@);
        let ghost d = depth as nat;
        let mut i: usize = 0;
        proof {
            assert(comments@.take(0) =~= Seq::<CommentNode>::empty());
            assert(rows@.map_values(|x: CommentRow| x@) =~= start + thread_rows(
                comments@.take(0),
                d,
            ));
        }
        while i < comments.len()
            invariant
                i <= comments.len(),
                depth <= max_row_depth() + 1,
                d == depth as nat,
                rows_fit(thread_rows(comments@.take(i as int), d)),
                rows@.map_values(|x: CommentRow| x@) == start + thread_rows(
                    comments@.take(i as int),
                    d,
                ),
            decreases comments.len() - i,
        {
            let c = &comments[i];
            let ghost before = thread_rows(comments@.take(i as int), d);
            proof {
                assert(comments@.take(i + 1).drop_last() =~= comments@.take(i as int));
                assert(comments@.take(i + 1).last() == *c);
                assert(thread_rows(comments@.take(i + 1), d) == before + subtree_rows(*c, d));
                assert(comments@ =~= comments@.take(i + 1) + comments@.skip(i + 1));
                lemma_thread_rows_append(comments@.take(i + 1), comments@.skip(i + 1), d);
                lemma_rows_fit_concat(
                    thread_rows(comments@.take(i + 1), d),
                    thread_rows(comments@.skip(i + 1), d),
                );
                lemma_rows_fit_concat(before, subtree_rows(*c, d));
                lemma_rows_fit_concat(seq![comment_row(*c, d)], thread_rows(c.replies@, d + 1));
            }
            if depth > 51 {
                proof {
                    assert(seq![comment_row(*c, d)][0].depth > max_row_depth());
                }
                return false;
            }
            let row = CommentBox::new(c, depth).widget();
            let ghost mid = rows@.map_values(|x: CommentRow| x@);
            rows.push(row);
            proof {
                assert(rows@.map_values(|x: CommentRow| x@) =~= mid.push(row@));
            }
            if c.replies.len() > 0 {
                proof {
                    assert(decreases_to!(comments@ => comments@[i as int]));
                }
                let ok = Self::pack_comments_listbox_loop(&c.replies, depth + 1, rows);
                if !ok {
                    return false;
                }
            } else {
                proof {
                    assert(c.replies@ =~= Seq::<CommentNode>::empty());
                }
            }
            proof {
                assert(rows@.map_values(|x: CommentRow| x@) =~= start + thread_rows(
                    comments@.take(i + 1),
                    d,
                ));
            }
            i = i + 1;
        }
        proof {
            assert(comments@.take(i as int) =~= comments@);
        }
        true
    }
}

/// The depths of `rows` start at `depth`, never fall below it, and rise by at
/// most one level from one row to the next; every row is tagged with its depth.
pub open spec fn thread_shaped(rows: Seq<CommentRowModel>, depth: nat) -> bool {
    &&& rows.len() > 0 ==> rows[0].depth == depth
    &&& forall|k: int|
        0 <= k < rows.len() ==> (#[trigger] rows[k]).depth_class == depth_class_text(rows[k].depth)
    &&& forall|k: int| 0 <= k < rows.len() ==> #[trigger] rows[k].depth >= depth
    &&& forall|k: int| 1 <= k < rows.len() ==> #[trigger] rows[k].depth <= rows[k - 1].depth + 1
}

proof fn lemma_thread_shaped_concat(a: Seq<CommentRowModel>, b: Seq<CommentRowModel>, depth: nat)
    requires
        thread_shaped(a, depth),
        thread_shaped(b, depth),
    ensures
        thread_shaped(a + b, depth),
{
    let ab = a + b;
    assert forall|k: int| 0 <= k < ab.len() implies #[trigger] ab[k].depth >= depth && ab[k].depth_class
        == depth_class_text(ab[k].depth) by {
        if k < a.len() {
            assert(ab[k] == a[k]);
        } else {
            assert(ab[k] == b[k - a.len()]);
        }
    }
    assert forall|k: int| 1 <= k < ab.len() implies #[trigger] ab[k].depth <= ab[k - 1].depth
        + 1 by {
        if k < a.len() {
            assert(ab[k] == a[k]);
            assert(ab[k - 1] == a[k - 1]);
        } else if k == a.len() {
            assert(ab[k - 1] == a[k - 1]);
            assert(a[k - 1].depth >= depth);
            assert(ab[k] == b[0]);
        } else {
            assert(ab[k] == b[k - a.len()]);
            assert(ab[k - 1] == b[k - 1 - a.len()]);
        }
    }
    if ab.len() > 0 {
        if a.len() > 0 {
            assert(ab[0] == a[0]);
        } else {
            assert(ab[0] == b[0]);
        }
    }
}

/// The rows of a list of comments shown at depth `depth` start at that depth,
/// never go above it, and go down at most one level from one row to the next.
pub proof fn lemma_thread_rows_shape(cs: Seq<CommentNode>, depth: nat)
    ensures
        thread_shaped(thread_rows(cs, depth), depth),
    decreases cs,
{
    if cs.len() > 0 {
        lemma_thread_rows_shape(cs.drop_last(), depth);
        lemma_subtree_rows_shape(cs.last(), depth);
        lemma_thread_shaped_concat(
            thread_rows(cs.drop_last(), depth),
            subtree_rows(cs.last(), depth),
            depth,
        );
    }
}

/// The rows of a comment start with its own row at `depth`; every row after it,
/// the rows of its replies, is deeper.
pub proof fn lemma_subtree_rows_shape(c: CommentNode, depth: nat)
    ensures
        thread_shaped(subtree_rows(c, depth), depth),
        subtree_rows(c, depth)[0] == comment_row(c, depth),
        forall|k: int|
            1 <= k < subtree_rows(c, depth).len() ==> #[trigger] subtree_rows(c, depth)[k].depth
                > depth,
    decreases c,
{
    let t = thread_rows(c.replies@, depth + 1);
    lemma_thread_rows_shape(c.replies@, depth + 1);
    let s = subtree_rows(c, depth);
    assert(s == seq![comment_row(c, depth)] + t);
    assert forall|k: int| 1 <= k < s.len() implies #[trigger] s[k].depth > depth by {
        assert(s[k] == t[k - 1]);
    }
    assert forall|k: int| 1 <= k < s.len() implies #[trigger] s[k].depth <= s[k - 1].depth + 1 by {
        if k == 1 {
            assert(s[1] == t[0]);
        } else {
            assert(s[k] == t[k - 1]);
            assert(s[k - 1] == t[k - 2]);
        }
    }
    assert forall|k: int| 0 <= k < s.len() implies #[trigger] s[k].depth >= depth && s[k].depth_class
        == depth_class_text(s[k].depth) by {
        if k > 0 {
            assert(s[k] == t[k - 1]);
        }
    }
}

/// The colour class of a row is `comment-depth-` followed by one digit, the depth
/// modulo five: it is always below five, and rows five levels apart share it.
pub proof fn lemma_shade_repeats_every_five_levels(c: CommentNode, depth: nat)
    ensures
        comment_row(c, depth).shade_class == "comment-depth-"@ + seq![
            digit_char((depth % 5) as int),
        ],
        comment_row(c, depth + 5).shade_class == comment_row(c, depth).shade_class,
        depth < 5 ==> comment_row(c, depth).shade_class == "comment-depth-"@ + decimal_nat(depth),
        '0' <= digit_char((depth % 5) as int) <= '4',
{
    assert((depth + 5) % 5 == depth % 5);
    assert(decimal_nat(depth % 5) == seq![digit_char((depth % 5) as int)]);
}

/// The rows of a comment are its own row, then the rows of each of its replies,
/// one level deeper, in the order the replies are listed: reply `i`'s rows come
/// after those of every earlier reply and before those of every later one.
pub proof fn lemma_replies_drawn_in_order(c: CommentNode, depth: nat, i: int)
    requires
        0 <= i < c.replies@.len(),
    ensures
        subtree_rows(c, depth) == seq![comment_row(c, depth)] + thread_rows(
            c.replies@.take(i),
            depth + 1,
        ) + subtree_rows(c.replies@[i], depth + 1) + thread_rows(c.replies@.skip(i + 1), depth + 1),
{
    let r = c.replies@;
    lemma_thread_rows_split(r, depth + 1, i);
    assert(subtree_rows(c, depth) == seq![comment_row(c, depth)] + thread_rows(r, depth + 1));
    assert(seq![comment_row(c, depth)] + (thread_rows(r.take(i), depth + 1) + subtree_rows(
        r[i],
        depth + 1,
    ) + thread_rows(r.skip(i + 1), depth + 1)) =~= seq![comment_row(c, depth)] + thread_rows(
        r.take(i),
        depth + 1,
    ) + subtree_rows(r[i], depth + 1) + thread_rows(r.skip(i + 1), depth + 1));
}

/// In the rows of a list of comments, the rows of comment `i` stand after those
/// of the comments before it and before those of the comments after it.
pub proof fn lemma_thread_rows_split(cs: Seq<CommentNode>, depth: nat, i: int)
    requires
        0 <= i < cs.len(),
    ensures
        thread_rows(cs, depth) == thread_rows(cs.take(i), depth) + subtree_rows(cs[i], depth)
            + thread_rows(cs.skip(i + 1), depth),
{
    assert(cs =~= cs.take(i) + (seq![cs[i]] + cs.skip(i + 1)));
    lemma_thread_rows_append(cs.take(i), seq![cs[i]] + cs.skip(i + 1), depth);
    lemma_thread_rows_append(seq![cs[i]], cs.skip(i + 1), depth);
    assert(seq![cs[i]].drop_last() =~= Seq::<CommentNode>::empty());
    assert(seq![cs[i]].last() == cs[i]);
    assert(thread_rows(Seq::<CommentNode>::empty(), depth) =~= Seq::<CommentRowModel>::empty());
    assert(thread_rows(seq![cs[i]], depth) =~= subtree_rows(cs[i], depth));
    assert(thread_rows(cs.take(i), depth) + (subtree_rows(cs[i], depth) + thread_rows(
        cs.skip(i + 1),
        depth,
    )) =~= thread_rows(cs.take(i), depth) + subtree_rows(cs[i], depth) + thread_rows(
        cs.skip(i + 1),
        depth,
    ));
}

/// A comment's row carries its depth, is tagged `comment--depth-` and the depth
/// in decimal, is indented five pixels per level, shows the score and author in
/// its header and the comment's own body unchanged.
pub proof fn lemma_comment_row_fields(c: CommentNode, depth: nat)
    ensures
        comment_row(c, depth).depth == depth,
        comment_row(c, depth).depth_class == "comment--depth-"@ + decimal_nat(depth),
        comment_row(c, depth).margin_start == 5 * depth,
        comment_row(c, depth).header_markup == "<small>"@ + decimal_int(c.score as int) + " - u/"@
            + c.author@ + "</small>"@,
        comment_row(c, depth).body_markup == c.body@,
{
}
} // verus!
