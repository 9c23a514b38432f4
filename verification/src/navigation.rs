use std::collections::VecDeque;
use vstd::prelude::*;

use crate::command::{CommandModel, ViewChangeCommand};

verus! {

/// What the application must do once a command has been taken into the history.
pub enum NavAction {
    /// Load and show the posts of a subreddit.
    LoadSubreddit(String),
    /// Load and show the comments of a post (post id, subreddit name).
    LoadComments(String, String),
    /// Show a web page.
    LoadWebView(String),
    /// Send this command back to the queue of commands: it is the view to go back to.
    Resend(ViewChangeCommand),
    /// Nothing to do.
    Stay,
}

/// The mathematical value of a [`NavAction`].
pub enum ActionModel {
    LoadSubreddit(Seq<char>),
    LoadComments(Seq<char>, Seq<char>),
    LoadWebView(Seq<char>),
    Resend(CommandModel),
    Stay,
}

impl View for NavAction {
    type V = ActionModel;

    open spec fn view(&self) -> ActionModel {
        match self {
            NavAction::LoadSubreddit(name) => ActionModel::LoadSubreddit(name@),
            NavAction::LoadComments(id, sub) => ActionModel::LoadComments(id@, sub@),
            NavAction::LoadWebView(url) => ActionModel::LoadWebView(url@),
            NavAction::Resend(c) => ActionModel::Resend(c@),
            NavAction::Stay => ActionModel::Stay,
        }
    }
}

/// The view that showing `c` loads.
pub open spec fn load_action(c: CommandModel) -> ActionModel {
    match c {
        CommandModel::Subreddit(name) => ActionModel::LoadSubreddit(name),
        CommandModel::Comments(id, sub) => ActionModel::LoadComments(id, sub),
        CommandModel::Web(url) => ActionModel::LoadWebView(url),
        CommandModel::Previous => ActionModel::Stay,
    }
}

/// A history holds only views to show, never a request to go back.
pub open spec fn history_wf(h: Seq<CommandModel>) -> bool {
    forall|i: int| 0 <= i < h.len() ==> !(#[trigger] h[i] is Previous)
}

/// The history after command `c`, most recent view first. A view is put in front;
/// going back drops the current view and the one before it (that one comes back as
/// a command of its own), unless there is no view before the current one.
pub open spec fn next_history(h: Seq<CommandModel>, c: CommandModel) -> Seq<CommandModel> {
    if c is Previous {
        if h.len() <= 1 {
            h
        } else {
            h.skip(2)
        }
    } else {
        seq![c] + h
    }
}

/// What the application does after command `c` on history `h`.
pub open spec fn next_action(h: Seq<CommandModel>, c: CommandModel) -> ActionModel {
    if c is Previous {
        if h.len() <= 1 {
            ActionModel::Stay
        } else {
            ActionModel::Resend(h[1])
        }
    } else {
        load_action(c)
    }
}

/// The views shown so far, most recent first, as the command loop keeps them.
pub struct ViewHistory {
    views: VecDeque<ViewChangeCommand>,
}

impl View for ViewHistory {
    type V = Seq<CommandModel>;

    closed spec fn view(&self) -> Seq<CommandModel> {
        self.views@.map_values(|c: ViewChangeCommand| c@)
    }
}

impl ViewHistory {
    /// The history holds no request to go back.
    pub open spec fn wf(&self) -> bool {
        history_wf(self@)
    }

    /// An empty history.
    pub fn new() -> (h: Self)
        ensures
            h@ == Seq::<CommandModel>::empty(),
            h.wf(),
    {
        let h = ViewHistory { views: VecDeque::new() };
        proof {
            assert(h@ =~= Seq::<CommandModel>::empty());
        }
        h
    }

    /// The number of views in the history.
    pub fn len(&self) -> (n: usize)
        ensures
            n == self@.len(),
    {
        self.views.len()
    }

    fn push_view(&mut self, c: ViewChangeCommand)
        requires
            old(self).wf(),
            !(c@ is Previous),
        ensures
            final(self)@ == seq![c@] + old(self)@,
            final(self).wf(),
    {
        let ghost before = self.views@;
        self.views.push_front(c);
        proof {
            assert(self.views@.map_values(|x: ViewChangeCommand| x@) =~= seq![c@]
                + before.map_values(|x: ViewChangeCommand| x@));
            assert forall|i: int| 0 <= i < self@.len() implies !(#[trigger] self@[i] is Previous) by {
                if i > 0 {
                    assert(self@[i] == old(self)@[i - 1]);
                }
            }
        }
    }

    /// Takes one command of the command loop: a view goes in front of the history
    /// and is loaded; a request to go back drops the current view and hands back
    /// the previous one to be sent again, or does nothing when there is no
    /// previous view.
    pub fn step(&mut self, cmd: ViewChangeCommand) -> (a: NavAction)
        requires
            old(self).wf(),
        ensures
            final(self).wf(),
            final(self)@ == next_history(old(self)@, cmd@),
            a@ == next_action(old(self)@, cmd@),
    {
        match cmd {
            ViewChangeCommand::PreviousView() => {
                if self.views.len() <= 1 {
                    return NavAction::Stay;
                }
                let ghost before = self.views@;
                let _current = self.views.pop_front();
                let previous = self.views.pop_front();
                proof {
                    assert(self.views@ =~= before.skip(2));
                    assert(self@ =~= old(self)@.skip(2));
                    assert forall|i: int| 0 <= i < self@.len() implies !(
                    #[trigger] self@[i] is Previous) by {
                        assert(self@[i] == old(self)@[i + 2]);
                    }
                }
                match previous {
                    Some(p) => NavAction::Resend(p),
                    None => NavAction::Stay,
                }
            },
            ViewChangeCommand::SubredditView(name) => {
                let a = NavAction::LoadSubreddit(name.clone());
                self.push_view(ViewChangeCommand::SubredditView(name));
                a
            },
            ViewChangeCommand::CommentsView(id, sub) => {
                let a = NavAction::LoadComments(id.clone(), sub.clone());
                self.push_view(ViewChangeCommand::CommentsView(id, sub));
                a
            },
            ViewChangeCommand::WebView(url) => {
                let a = NavAction::LoadWebView(url.clone());
                self.push_view(ViewChangeCommand::WebView(url));
                a
            },
        }
    }
}

/// Going back hands out a view to show, never another request to go back.
pub proof fn lemma_resent_command_is_a_view(h: Seq<CommandModel>)
    requires
        history_wf(h),
    ensures
        next_action(h, CommandModel::Previous) matches ActionModel::Resend(c) ==> !(c is Previous),
{
    if h.len() > 1 {
        assert(!(h[1] is Previous));
    }
}

/// A completed step back (the request to go back, then the view it hands out)
/// loads the previous view and leaves the history without its current view.
pub proof fn lemma_completed_back(h: Seq<CommandModel>)
    requires
        history_wf(h),
        h.len() >= 2,
    ensures
        next_action(h, CommandModel::Previous) == ActionModel::Resend(h[1]),
        next_action(next_history(h, CommandModel::Previous), h[1]) == load_action(h[1]),
        next_history(next_history(h, CommandModel::Previous), h[1]) == h.skip(1),
        history_wf(next_history(next_history(h, CommandModel::Previous), h[1])),
{
    assert(!(h[1] is Previous));
    assert(seq![h[1]] + h.skip(2) =~= h.skip(1));
}

/// Opening a view and then going back shows again the view that was current
/// before, and the history is as it was before the view was opened.
pub proof fn lemma_open_then_back(h: Seq<CommandModel>, w: CommandModel)
    requires
        history_wf(h),
        h.len() >= 1,
        !(w is Previous),
    ensures
        next_action(next_history(h, w), CommandModel::Previous) == ActionModel::Resend(h[0]),
        next_history(next_history(next_history(h, w), CommandModel::Previous), h[0]) == h,
        next_action(next_history(next_history(h, w), CommandModel::Previous), h[0]) == load_action(
            h[0],
        ),
{
    let h1 = seq![w] + h;
    assert(history_wf(h1)) by {
        assert forall|i: int| 0 <= i < h1.len() implies !(#[trigger] h1[i] is Previous) by {
            if i > 0 {
                assert(h1[i] == h[i - 1]);
            }
        }
    }
    lemma_completed_back(h1);
    assert(h1.skip(1) =~= h);
}

/// Going back with no view before the current one changes nothing.
pub proof fn lemma_back_at_first_view(h: Seq<CommandModel>)
    requires
        h.len() <= 1,
    ensures
        next_history(h, CommandModel::Previous) == h,
        next_action(h, CommandModel::Previous) == ActionModel::Stay,
{
}


/// Opening a view loads exactly that view, whatever the history: a subreddit by
/// its own name, a comments view by its own post id and subreddit, a web page by
/// its own address, unchanged; and the view goes in front of the history.
pub proof fn lemma_open_loads_the_command_strings(
    h: Seq<CommandModel>,
    name: Seq<char>,
    id: Seq<char>,
    sub: Seq<char>,
    url: Seq<char>,
)
    ensures
        next_action(h, CommandModel::Subreddit(name)) == ActionModel::LoadSubreddit(name),
        next_action(h, CommandModel::Comments(id, sub)) == ActionModel::LoadComments(id, sub),
        next_action(h, CommandModel::Web(url)) == ActionModel::LoadWebView(url),
        next_history(h, CommandModel::Web(url)) == seq![CommandModel::Web(url)] + h,
        next_history(h, CommandModel::Subreddit(name)) == seq![CommandModel::Subreddit(name)] + h,
        next_history(h, CommandModel::Comments(id, sub)) == seq![CommandModel::Comments(id, sub)]
            + h,
{
}
} // verus!
