use redditclient::collapse::{collapse_plan, read_row_depth, DepthClass};
use redditclient::comments::{CommentBox, CommentList, CommentListBox, CommentNode, CommentRow};
use redditclient::post::PostData;

fn node(score: i64, author: &str, body: &str, replies: Vec<CommentNode>) -> CommentNode {
    CommentNode { score, author: author.to_string(), body: body.to_string(), replies }
}

fn post() -> PostData {
    PostData {
        score: 10,
        title: "A title".to_string(),
        subreddit: "rust".to_string(),
        num_comments: 4,
        author: "alice".to_string(),
        permalink: "/r/rust/comments/abc/a_title/".to_string(),
        url: "https://www.reddit.com/r/rust/comments/abc/a_title/".to_string(),
        body: "Hello".to_string(),
    }
}

fn depths(rows: &[CommentRow]) -> Vec<u8> {
    rows.iter().map(|r| r.depth).collect()
}

#[test]
fn comment_row_text_and_classes() {
    let c = node(-5, "bob", "some *text*", vec![]);
    let row = CommentBox::new(&c, 3).widget();
    assert_eq!(row.depth, 3);
    assert_eq!(row.depth_class, "comment--depth-3");
    assert_eq!(row.shade_class, "comment-depth-3");
    assert_eq!(row.margin_start, 15);
    assert_eq!(row.header_markup, "<small>-5 - u/bob</small>");
    assert_eq!(row.body_markup, "some *text*");

    let deep = CommentBox::new(&c, 12).widget();
    assert_eq!(deep.depth_class, "comment--depth-12");
    assert_eq!(deep.shade_class, "comment-depth-2");
    assert_eq!(deep.margin_start, 60);

    let deepest = CommentBox::new(&c, 51).widget();
    assert_eq!(deepest.margin_start, 255);
}

#[test]
fn thread_is_flattened_depth_first() {
    let thread = vec![
        node(1, "a", "A", vec![node(2, "b", "B", vec![node(3, "c", "C", vec![])]), node(4, "d", "D", vec![])]),
        node(5, "e", "E", vec![]),
    ];
    let list = CommentList { post: post(), comments: thread };
    let rows = CommentListBox::new(&list).widget().expect("shallow thread");
    let bodies: Vec<&str> = rows.iter().map(|r| r.body_markup.as_str()).collect();
    assert_eq!(bodies, vec!["A", "B", "C", "D", "E"]);
    assert_eq!(depths(&rows), vec![0, 1, 2, 1, 0]);
    assert_eq!(rows[2].header_markup, "<small>3 - u/c</small>");
}

#[test]
fn empty_thread_has_no_rows() {
    let list = CommentList { post: post(), comments: vec![] };
    assert_eq!(CommentListBox::new(&list).widget().unwrap().len(), 0);
}

fn chain(levels: usize) -> CommentNode {
    let mut n = node(0, "x", "leaf", vec![]);
    for _ in 1..levels {
        n = node(0, "x", "inner", vec![n]);
    }
    n
}

#[test]
fn thread_too_deep_to_draw_is_refused() {
    // 52 levels: depths 0..=51 can be drawn
    let ok = CommentList { post: post(), comments: vec![chain(52)] };
    let rows = CommentListBox::new(&ok).widget().expect("51 is the deepest row");
    assert_eq!(rows.len(), 52);
    assert_eq!(rows[51].margin_start, 255);
    // 53 levels: the deepest comment would sit at depth 52
    let too_deep = CommentList { post: post(), comments: vec![chain(53)] };
    assert!(CommentListBox::new(&too_deep).widget().is_none());
}

#[test]
fn row_depth_is_read_from_the_first_depth_class() {
    let classes = |v: &[&str]| v.iter().map(|s| s.to_string()).collect::<Vec<String>>();
    assert_eq!(read_row_depth(&classes(&[])), DepthClass::Absent);
    assert_eq!(read_row_depth(&classes(&["activatable"])), DepthClass::Absent);
    assert_eq!(read_row_depth(&classes(&["x", "comment--depth-4", "comment--depth-9"])), DepthClass::Depth(4));
    assert_eq!(read_row_depth(&classes(&["comment--depth-x"])), DepthClass::Malformed);
    assert_eq!(read_row_depth(&classes(&["comment--depth"])), DepthClass::Malformed);
    assert_eq!(read_row_depth(&classes(&["comment--depth--3"])), DepthClass::Depth(-3));
    assert_eq!(read_row_depth(&classes(&["comment-depth-2", "comment--depth-0"])), DepthClass::Depth(0));
}

#[test]
fn drawn_depth_class_reads_back() {
    let c = node(0, "x", "y", vec![]);
    for d in 0u8..=51 {
        let row = CommentBox::new(&c, d).widget();
        assert_eq!(read_row_depth(&vec![row.depth_class]), DepthClass::Depth(d as i32));
    }
}

fn ds(v: &[i32]) -> Vec<DepthClass> {
    v.iter().map(|d| DepthClass::Depth(*d)).collect()
}

#[test]
fn click_hides_the_replies_of_the_clicked_comment() {
    let rows = ds(&[0, 1, 2, 1, 0, 1]);
    let plan = collapse_plan(&rows, 0, true).unwrap();
    assert_eq!(plan.rows, vec![1, 2, 3]);
    assert!(plan.show_notice);
    assert!(!plan.rows_visible);

    let plan = collapse_plan(&rows, 1, false).unwrap();
    assert_eq!(plan.rows, vec![2]);
    assert!(!plan.show_notice);
    assert!(plan.rows_visible);

    let plan = collapse_plan(&rows, 4, true).unwrap();
    assert_eq!(plan.rows, vec![5]);

    let plan = collapse_plan(&rows, 5, true).unwrap();
    assert!(plan.rows.is_empty());
}

#[test]
fn click_walk_passes_over_shallower_rows() {
    // a shallower row does not end the walk; only a row at the clicked depth does
    let rows = ds(&[1, 2, 0, 2, 1, 3]);
    let plan = collapse_plan(&rows, 0, true).unwrap();
    assert_eq!(plan.rows, vec![1, 3]);
}

#[test]
fn click_skips_rows_without_depth_and_stops_on_unreadable_ones() {
    let rows = vec![DepthClass::Depth(0), DepthClass::Absent, DepthClass::Depth(1), DepthClass::Depth(0)];
    assert_eq!(collapse_plan(&rows, 0, true).unwrap().rows, vec![2]);

    let rows = vec![DepthClass::Depth(0), DepthClass::Malformed, DepthClass::Depth(0)];
    assert!(collapse_plan(&rows, 0, true).is_none());
    // the walk ends before the unreadable row
    let rows = vec![DepthClass::Depth(0), DepthClass::Depth(0), DepthClass::Malformed];
    assert!(collapse_plan(&rows, 0, true).unwrap().rows.is_empty());
    // an unreadable clicked row
    let rows = vec![DepthClass::Malformed, DepthClass::Depth(1)];
    assert!(collapse_plan(&rows, 0, true).is_none());
    // a clicked row that names no depth counts as depth 0
    let rows = vec![DepthClass::Absent, DepthClass::Depth(1), DepthClass::Depth(0)];
    assert_eq!(collapse_plan(&rows, 0, true).unwrap().rows, vec![1]);
}

#[test]
fn clicking_a_drawn_comment_toggles_exactly_its_replies() {
    let thread = vec![
        node(1, "a", "A", vec![node(2, "b", "B", vec![node(3, "c", "C", vec![])]), node(4, "d", "D", vec![])]),
        node(5, "e", "E", vec![node(6, "f", "F", vec![])]),
    ];
    let list = CommentList { post: post(), comments: thread };
    let rows = CommentListBox::new(&list).widget().unwrap();
    let read: Vec<DepthClass> = rows.iter().map(|r| read_row_depth(&vec![r.depth_class.clone()])).collect();
    assert_eq!(collapse_plan(&read, 0, true).unwrap().rows, vec![1, 2, 3]);
    assert_eq!(collapse_plan(&read, 1, true).unwrap().rows, vec![2]);
    assert_eq!(collapse_plan(&read, 4, true).unwrap().rows, vec![5]);
}
