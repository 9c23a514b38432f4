use redditclient::command::ViewChangeCommand;
use redditclient::post::{subreddit_page, PostBox, PostData};

fn text_post() -> PostData {
    PostData {
        score: 1234,
        title: "Ask: what now?".to_string(),
        subreddit: "rust".to_string(),
        num_comments: 56,
        author: "alice".to_string(),
        permalink: "/r/rust/comments/abc/ask/".to_string(),
        url: "https://www.reddit.com/r/rust/comments/abc/ask/".to_string(),
        body: "Body text".to_string(),
    }
}

fn link_post() -> PostData {
    PostData {
        score: -3,
        title: "A link".to_string(),
        subreddit: "programming".to_string(),
        num_comments: 0,
        author: "bob".to_string(),
        permalink: "/r/programming/comments/def/a_link/".to_string(),
        url: "https://example.org/article".to_string(),
        body: "".to_string(),
    }
}

#[test]
fn post_labels() {
    let p = text_post();
    let w = PostBox::new(&p).widget(true, false);
    assert_eq!(w.score_markup, "1234");
    assert_eq!(w.title_markup, "Ask: what now?\n<small>r/rust, 56 comments, by alice</small>");
    let p = link_post();
    let w = PostBox::new(&p).widget(true, false);
    assert_eq!(w.score_markup, "-3");
    assert_eq!(w.title_markup, "A link\n<small>r/programming, 0 comments, by bob</small>");
}

#[test]
fn text_post_has_no_link_button() {
    let p = text_post();
    let w = PostBox::new(&p).widget(true, true);
    assert!(w.link_button.is_none());
    assert_eq!(w.body_markup.as_deref(), Some("Body text"));
}

#[test]
fn link_post_opens_its_address() {
    let p = link_post();
    let w = PostBox::new(&p).widget(false, true);
    match w.link_button {
        Some(ViewChangeCommand::WebView(url)) => assert_eq!(url, "https://example.org/article"),
        other => panic!("unexpected link button {:?}", other),
    }
    assert!(w.comments_button.is_none());
    // an empty body is not shown even when asked for
    assert!(w.body_markup.is_none());
}

#[test]
fn comments_button_opens_the_comments() {
    let p = link_post();
    let w = PostBox::new(&p).widget(true, false);
    match w.comments_button {
        Some(ViewChangeCommand::CommentsView(id, sub)) => {
            assert_eq!(id, "/r/programming/comments/def/a_link/");
            assert_eq!(sub, "programming");
        }
        other => panic!("unexpected comments button {:?}", other),
    }
}

#[test]
fn body_shown_only_when_asked() {
    let p = text_post();
    assert!(PostBox::new(&p).widget(true, false).body_markup.is_none());
    assert!(PostBox::new(&p).widget(false, true).body_markup.is_some());
}

#[test]
fn subreddit_page_shows_each_post_with_comments_button() {
    let posts = vec![text_post(), link_post()];
    let ws = subreddit_page(&posts);
    assert_eq!(ws.len(), 2);
    assert!(ws.iter().all(|w| w.comments_button.is_some() && w.body_markup.is_none()));
    assert!(ws[0].link_button.is_none());
    assert!(ws[1].link_button.is_some());
    assert!(subreddit_page(&vec![]).is_empty());
}
