use vstd::prelude::*;

verus! {

/// A request to change what the main window shows.
#[derive(Clone, Debug)]
pub enum ViewChangeCommand {
    /// Show the posts of the named subreddit.
    SubredditView(String),
    /// Show the comments of a post: the post's id (its permalink) and its subreddit.
    CommentsView(String, String),
    /// Show a web page.
    WebView(String),
    /// Go back to the view shown before the current one.
    PreviousView(),
}

/// The mathematical value of a [`ViewChangeCommand`]: its strings as character sequences.
pub enum CommandModel {
    Subreddit(Seq<char>),
    Comments(Seq<char>, Seq<char>),
    Web(Seq<char>),
    Previous,
}

impl View for ViewChangeCommand {
    type V = CommandModel;

    open spec fn view(&self) -> CommandModel {
        match self {
            ViewChangeCommand::SubredditView(name) => CommandModel::Subreddit(name@),
            ViewChangeCommand::CommentsView(id, sub) => CommandModel::Comments(id@, sub@),
            ViewChangeCommand::WebView(url) => CommandModel::Web(url@),
            ViewChangeCommand::PreviousView() => CommandModel::Previous,
        }
    }
}

/// The view the application opens with: the front page of `r/all`.
pub fn initial_view() -> (c: ViewChangeCommand)
    ensures
        c@ == CommandModel::Subreddit("all"@),
{
    ViewChangeCommand::SubredditView(String::from_str("all"))
}

} // verus!
