use vstd::prelude::*;

use crate::command::{CommandModel, ViewChangeCommand};
use crate::text::{decimal_i64, decimal_int, decimal_nat, push_decimal_u64};

verus! {

/// A post of a subreddit, as the post view reads it.
pub struct PostData {
    pub score: i64,
    pub title: String,
    pub subreddit: String,
    pub num_comments: u64,
    pub author: String,
    /// The path of the post's comment page on reddit.com (starts with `/r/`).
    pub permalink: String,
    /// Where the post links to; the comment page itself for a text post.
    pub url: String,
    /// The text of a text post; empty for a link post.
    pub body: String,
}


/// What the post view shows of one post.
pub struct PostWidget {
    /// The score, in decimal.
    pub score_markup: String,
    /// `<title>\n<small>r/<subreddit>, <n> comments, by <author></small>`.
    pub title_markup: String,
    /// What the comments button sends, when the button is shown.
    pub comments_button: Option<ViewChangeCommand>,
    /// What the link button sends, when the button is shown.
    pub link_button: Option<ViewChangeCommand>,
    /// The body text, when it is shown.
    pub body_markup: Option<String>,
}

/// The mathematical value of a [`PostWidget`].
pub struct PostWidgetModel {
    pub score_markup: Seq<char>,
    pub title_markup: Seq<char>,
    pub comments_button: Option<CommandModel>,
    pub link_button: Option<CommandModel>,
    pub body_markup: Option<Seq<char>>,
}

/// The value of an optional command.
pub open spec fn command_of(c: Option<ViewChangeCommand>) -> Option<CommandModel> {
    match c {
        Some(x) => Some(x@),
        None => None,
    }
}

/// The value of an optional text.
pub open spec fn text_of(t: Option<String>) -> Option<Seq<char>> {
    match t {
        Some(x) => Some(x@),
        None => None,
    }
}

impl View for PostWidget {
    type V = PostWidgetModel;

    open spec fn view(&self) -> PostWidgetModel {
        PostWidgetModel {
            score_markup: self.score_markup@,
            title_markup: self.title_markup@,
            comments_button: command_of(self.comments_button),
            link_button: command_of(self.link_button),
            body_markup: text_of(self.body_markup),
        }
    }
}

/// The address of a post's comment page on the web.
pub open spec fn permalink_url(p: PostData) -> Seq<char> {
    "https://www.reddit.com"@ + p.permalink@
}

/// The title line of a post.
pub open spec fn post_title_text(p: PostData) -> Seq<char> {
    p.title@ + "\n<small>r/"@ + p.subreddit@ + ", "@ + decimal_nat(p.num_comments as nat)
        + " comments, by "@ + p.author@ + "</small>"@
}

/// The view of post `p`. The comments button, when asked for, opens the post's
/// comments; the link button is there when the post links somewhere other than
/// its own comment page, and opens that address; the body is shown when asked
/// for and not empty.
pub open spec fn post_widget(p: PostData, show_comments_btn: bool, show_post_body: bool) -> PostWidgetModel {
    PostWidgetModel {
        score_markup: decimal_int(p.score as int),
        title_markup: post_title_text(p),
        comments_button: if show_comments_btn {
            Some(CommandModel::Comments(p.permalink@, p.subreddit@))
        } else {
            None
        },
        link_button: if permalink_url(p) != p.url@ {
            Some(CommandModel::Web(p.url@))
        } else {
            None
        },
        body_markup: if show_post_body && p.body@.len() > 0 {
            Some(p.body@)
        } else {
            None
        },
    }
}

/// One post, ready to be turned into its view.
pub struct PostBox<'a> {
    post: &'a PostData,
}

impl<'a> PostBox<'a> {
    /// The post this box shows.
    pub closed spec fn post(&self) -> PostData {
        *self.post
    }

    /// The post `post`.
    pub fn new(post: &'a PostData) -> (b: Self)
        ensures
            b.post() == *post,
    {
        PostBox { post }
    }

    /// The view of the post, with a comments button when `show_comments_btn`
    /// and its body when `show_post_body`.
    pub fn widget(&self, show_comments_btn: bool, show_post_body: bool) -> (w: PostWidget)
        ensures
            w@ == post_widget(self.post(), show_comments_btn, show_post_body),
    {
        let post = self.post;
        let score = decimal_i64(post.score);
        let mut title = post.title.clone();
        title.append("\n<small>r/");
        title.append(post.subreddit.as_str());
        title.append(", ");
        push_decimal_u64(&mut title, post.num_comments);
        title.append(" comments, by ");
        title.append(post.author.as_str());
        title.append("</small>");
        let mut link_target = String::from_str("https://www.reddit.com");
        link_target.append(post.permalink.as_str());
        let comments_button = if show_comments_btn {
            Some(ViewChangeCommand::CommentsView(post.permalink.clone(), post.subreddit.clone()))
        } else {
            None
        };
        let link_button = if !(link_target == post.url) {
            Some(ViewChangeCommand::WebView(post.url.clone()))
        } else {
            None
        };
        let body_markup = if show_post_body && !post.body.as_str().is_empty() {
            Some(post.body.clone())
        } else {
            None
        };
        PostWidget {
            score_markup: score,
            title_markup: title,
            comments_button,
            link_button,
            body_markup,
        }
    }
}

/// The views of the posts of a subreddit page, in order: each with its comments
/// button and without its body.
pub fn subreddit_page(posts: &Vec<PostData>) -> (ws: Vec<PostWidget>)
    ensures
        ws.len() == posts.len(),
        forall|i: int|
            0 <= i < posts.len() ==> (#[trigger] ws[i])@ == post_widget(posts[i], true, false),
{
    let mut ws: Vec<PostWidget> = Vec::new();
    let mut i: usize = 0;
    while i < posts.len()
        invariant
            i <= posts.len(),
            ws.len() == i,
            forall|k: int| 0 <= k < i ==> (#[trigger] ws[k])@ == post_widget(posts[k], true, false),
        decreases posts.len() - i,
    {
        ws.push(PostBox::new(&posts[i]).widget(true, false));
        i = i + 1;
    }
    ws
}

/// Whenever the comments button is shown it opens the comments of this very post:
/// its permalink as the post id and its subreddit, for text and link posts alike;
/// it is absent exactly when not asked for.
pub proof fn lemma_comments_button_sends_permalink(p: PostData, show_post_body: bool)
    ensures
        post_widget(p, true, show_post_body).comments_button == Some(
            CommandModel::Comments(p.permalink@, p.subreddit@),
        ),
        post_widget(p, false, show_post_body).comments_button is None,
{
}

/// The link button is there exactly when the post's address differs from
/// `https://www.reddit.com` followed by its permalink (its own comment page), and
/// then opens that address unchanged; the choice does not depend on which of the
/// other parts are asked for.
pub proof fn lemma_link_button_iff_not_own_page(p: PostData, show_comments_btn: bool, show_post_body: bool)
    ensures
        (post_widget(p, show_comments_btn, show_post_body).link_button is Some) <==> p.url@
            != "https://www.reddit.com"@ + p.permalink@,
        p.url@ != "https://www.reddit.com"@ + p.permalink@ ==> post_widget(
            p,
            show_comments_btn,
            show_post_body,
        ).link_button == Some(CommandModel::Web(p.url@)),
        post_widget(p, show_comments_btn, show_post_body).link_button == post_widget(
            p,
            !show_comments_btn,
            !show_post_body,
        ).link_button,
{
}

/// A post shows its score in decimal, its title followed by its subreddit, comment
/// count and author, and its own body exactly when the body is asked for and not
/// empty.
pub proof fn lemma_post_texts(p: PostData, show_comments_btn: bool, show_post_body: bool)
    ensures
        post_widget(p, show_comments_btn, show_post_body).score_markup == decimal_int(p.score as int),
        post_widget(p, show_comments_btn, show_post_body).title_markup == p.title@
            + "\n<small>r/"@ + p.subreddit@ + ", "@ + decimal_nat(p.num_comments as nat)
            + " comments, by "@ + p.author@ + "</small>"@,
        (post_widget(p, show_comments_btn, show_post_body).body_markup is Some) <==> (show_post_body
            && p.body@.len() > 0),
        post_widget(p, show_comments_btn, show_post_body).body_markup is Some ==> post_widget(
            p,
            show_comments_btn,
            show_post_body,
        ).body_markup == Some(p.body@),
{
}
} // verus!
