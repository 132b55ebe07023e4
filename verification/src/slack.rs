//! What is sent to Slack, and what its answers mean.
use vstd::prelude::*;

verus! {

broadcast use vstd::string::group_string_axioms;

/// A message as Slack's `chat.postMessage` takes it. Without `thread_ts` it opens a
/// thread, with it it answers in one.
#[derive(Debug)]
pub struct SlackMessage {
    pub channel: String,
    pub text: String,
    pub mrkdwn: bool,
    pub unfurl_links: bool,
    pub thread_ts: Option<String>,
}

/// What Slack answers to a message, as far as it is read.
#[derive(Debug)]
pub struct SlackResponse {
    pub ok: bool,
    pub ts: Option<String>,
    pub error: Option<String>,
}

/// The characters of an optional text.
pub open spec fn optional_text(text: Option<String>) -> Option<Seq<char>> {
    match text {
        Some(text) => Some(text@),
        None => None,
    }
}

/// The message with that text, for a channel or for a thread of it.
pub fn message(channel: &str, thread_ts: Option<&str>, text: &str) -> (r: SlackMessage)
    ensures
        r.channel@ == channel@,
        r.text@ == text@,
        r.mrkdwn,
        !r.unfurl_links,
        optional_text(r.thread_ts) == match thread_ts {
            Some(ts) => Some(ts@),
            None => None,
        },
{
    SlackMessage {
        channel: channel.to_owned(),
        text: text.to_owned(),
        mrkdwn: true,
        unfurl_links: false,
        thread_ts: match thread_ts {
            Some(ts) => Some(ts.to_owned()),
            None => None,
        },
    }
}

/// What is reported of a message that Slack refused.
pub open spec fn refusal(error: Option<Seq<char>>) -> Seq<char> {
    "Slack API erreur : "@ + match error {
        Some(error) => error,
        None => "inconnu"@,
    }
}

/// What is reported where Slack took the opening message but named no thread.
pub open spec fn missing_thread(error: Option<Seq<char>>) -> Seq<char> {
    "Slack n'a pas retourné de ts. Erreur : "@ + match error {
        Some(error) => error,
        None => Seq::empty(),
    }
}

/// Takes the answer to a message; an error where Slack refused the message.
pub fn accept(resp: SlackResponse) -> (r: Result<SlackResponse, String>)
    ensures
        resp.ok ==> r == Ok::<SlackResponse, String>(resp),
        !resp.ok ==> (r matches Err(e) && e@ == refusal(optional_text(resp.error))),
{
    if !resp.ok {
        let mut e = "Slack API erreur : ".to_owned();
        match resp.error {
            Some(error) => {
                e.append(error.as_str());
            },
            None => {
                e.append("inconnu");
            },
        }
        return Err(e);
    }
    Ok(resp)
}

/// The thread that the opening message made; an error where Slack refused the
/// message or named no thread.
pub fn opened_thread(resp: SlackResponse) -> (r: Result<String, String>)
    ensures
        !resp.ok ==> (r matches Err(e) && e@ == refusal(optional_text(resp.error))),
        resp.ok && resp.ts is Some ==> r == Ok::<String, String>(resp.ts->0),
        resp.ok && resp.ts is None ==> (r matches Err(e) && e@ == missing_thread(
            optional_text(resp.error),
        )),
{
    let resp = match accept(resp) {
        Ok(resp) => resp,
        Err(e) => {
            return Err(e);
        },
    };
    match resp.ts {
        Some(ts) => Ok(ts),
        None => {
            let mut e = "Slack n'a pas retourné de ts. Erreur : ".to_owned();
            match resp.error {
                Some(error) => {
                    e.append(error.as_str());
                },
                None => {},
            }
            assert(e@ =~= missing_thread(optional_text(resp.error)));
            Err(e)
        },
    }
}

// ---------------------------------------------------------------------------
// Posting several messages
// ---------------------------------------------------------------------------

/// What comes next while messages are posted to a thread, one after the other.
#[derive(Debug)]
pub enum PostStep {
    /// Post the message of that position.
    Post(usize),
    /// All are posted.
    Done,
    /// One could not be posted; the others are not tried.
    Failed(String),
}

/// The position that is posted after `posted` messages went well, if any is left.
pub open spec fn position_after(posted: nat, total: nat) -> Option<nat> {
    if posted < total {
        Some(posted)
    } else {
        None
    }
}

/// What comes next once `posted` of `total` messages are posted, given how the last
/// post went. Before the first post nothing went wrong.
pub fn next_post(posted: usize, total: usize, last: Result<(), String>) -> (r: PostStep)
    ensures
        match last {
            Err(e) => r == PostStep::Failed(e),
            Ok(_) => match position_after(posted as nat, total as nat) {
                Some(position) => r matches PostStep::Post(p) && p == position,
                None => r == PostStep::Done,
            },
        },
{
    match last {
        Err(e) => PostStep::Failed(e),
        Ok(_) => {
            if posted < total {
                PostStep::Post(posted)
            } else {
                PostStep::Done
            }
        },
    }
}

/// The positions that are posted from `posted` on, where `goes_well` says how the
/// post of each position goes: the steps of `next_post` one after the other.
pub open spec fn posts_from(posted: nat, total: nat, goes_well: spec_fn(nat) -> bool) -> Seq<nat>
    decreases total - posted,
{
    match position_after(posted, total) {
        None => Seq::empty(),
        Some(position) => if goes_well(position) {
            seq![position] + posts_from(posted + 1, total, goes_well)
        } else {
            seq![position]
        },
    }
}

/// Messages are posted in their order, each once, until one fails or all are
/// posted.
pub proof fn law_posts_in_order(posted: nat, total: nat, goes_well: spec_fn(nat) -> bool)
    requires
        posted <= total,
    ensures
        ({
            let posts = posts_from(posted, total, goes_well);
            &&& forall|i: int| 0 <= i < posts.len() ==> #[trigger] posts[i] == posted + i
            &&& forall|i: int| 0 <= i < posts.len() - 1 ==> goes_well(#[trigger] posts[i])
            &&& posted + posts.len() <= total
            &&& posted + posts.len() < total ==> posts.len() > 0 && !goes_well(posts.last())
        }),
    decreases total - posted,
{
    if posted < total && goes_well(posted) {
        law_posts_in_order(posted + 1, total, goes_well);
        let rest = posts_from(posted + 1, total, goes_well);
        let posts = posts_from(posted, total, goes_well);
        assert(forall|i: int| 0 < i < posts.len() ==> #[trigger] posts[i] == rest[i - 1]);
        if rest.len() > 0 {
            assert(posts.last() == rest.last());
        }
    }
}

} // verus!
