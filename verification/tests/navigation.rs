use redditclient::command::{initial_view, ViewChangeCommand};
use redditclient::navigation::{NavAction, ViewHistory};

fn sub(name: &str) -> ViewChangeCommand {
    ViewChangeCommand::SubredditView(name.to_string())
}

fn is_load_subreddit(a: &NavAction, name: &str) -> bool {
    matches!(a, NavAction::LoadSubreddit(n) if n == name)
}

#[test]
fn initial_view_is_r_all() {
    match initial_view() {
        ViewChangeCommand::SubredditView(name) => assert_eq!(name, "all"),
        other => panic!("unexpected initial view {:?}", other),
    }
}

#[test]
fn opening_a_view_loads_it_and_records_it() {
    let mut h = ViewHistory::new();
    assert_eq!(h.len(), 0);
    let a = h.step(sub("all"));
    assert!(is_load_subreddit(&a, "all"));
    assert_eq!(h.len(), 1);
    let a = h.step(ViewChangeCommand::CommentsView("/r/rust/comments/1".to_string(), "rust".to_string()));
    assert!(matches!(a, NavAction::LoadComments(ref id, ref s) if id == "/r/rust/comments/1" && s == "rust"));
    let a = h.step(ViewChangeCommand::WebView("https://example.org".to_string()));
    assert!(matches!(a, NavAction::LoadWebView(ref u) if u == "https://example.org"));
    assert_eq!(h.len(), 3);
}

#[test]
fn back_with_no_earlier_view_does_nothing() {
    let mut h = ViewHistory::new();
    assert!(matches!(h.step(ViewChangeCommand::PreviousView()), NavAction::Stay));
    assert_eq!(h.len(), 0);
    h.step(sub("all"));
    assert!(matches!(h.step(ViewChangeCommand::PreviousView()), NavAction::Stay));
    assert_eq!(h.len(), 1);
}

#[test]
fn back_resends_the_previous_view() {
    let mut h = ViewHistory::new();
    h.step(sub("all"));
    h.step(sub("rust"));
    h.step(sub("programming"));
    let a = h.step(ViewChangeCommand::PreviousView());
    let resent = match a {
        NavAction::Resend(c) => c,
        _ => panic!("expected the previous view to be resent"),
    };
    assert!(matches!(resent, ViewChangeCommand::SubredditView(ref n) if n == "rust"));
    // both the current view and the previous one leave the history ...
    assert_eq!(h.len(), 1);
    // ... and the previous one comes back when the resent command is taken in
    let a = h.step(resent);
    assert!(is_load_subreddit(&a, "rust"));
    assert_eq!(h.len(), 2);
    // going back once more returns to r/all
    let a = h.step(ViewChangeCommand::PreviousView());
    match a {
        NavAction::Resend(c) => {
            assert!(matches!(c, ViewChangeCommand::SubredditView(ref n) if n == "all"));
            let a = h.step(c);
            assert!(is_load_subreddit(&a, "all"));
        }
        _ => panic!("expected r/all to be resent"),
    }
    assert_eq!(h.len(), 1);
    assert!(matches!(h.step(ViewChangeCommand::PreviousView()), NavAction::Stay));
}

#[test]
fn open_then_back_restores_the_history() {
    let mut h = ViewHistory::new();
    h.step(sub("all"));
    h.step(sub("rust"));
    let before = h.len();
    h.step(ViewChangeCommand::WebView("https://example.org".to_string()));
    let resent = match h.step(ViewChangeCommand::PreviousView()) {
        NavAction::Resend(c) => c,
        _ => panic!("expected a resend"),
    };
    assert!(matches!(resent, ViewChangeCommand::SubredditView(ref n) if n == "rust"));
    let a = h.step(resent);
    assert!(is_load_subreddit(&a, "rust"));
    assert_eq!(h.len(), before);
}
