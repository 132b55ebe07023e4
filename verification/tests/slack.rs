use warroom_scribe::slack::{accept, message, next_post, opened_thread, PostStep, SlackResponse};

fn response(ok: bool, ts: Option<&str>, error: Option<&str>) -> SlackResponse {
    SlackResponse { ok, ts: ts.map(|t| t.to_string()), error: error.map(|e| e.to_string()) }
}

#[test]
fn a_message_opens_a_thread_or_answers_in_one() {
    let opening = message("#warroom", None, "bonjour");
    assert_eq!(opening.channel, "#warroom");
    assert_eq!(opening.text, "bonjour");
    assert!(opening.mrkdwn);
    assert!(!opening.unfurl_links);
    assert_eq!(opening.thread_ts, None);
    let answer = message("#warroom", Some("12.34"), "suite");
    assert_eq!(answer.thread_ts, Some("12.34".to_string()));
}

#[test]
fn a_refused_message_is_an_error() {
    assert_eq!(
        accept(response(false, Some("1"), Some("channel_not_found"))).unwrap_err(),
        "Slack API erreur : channel_not_found"
    );
    assert_eq!(accept(response(false, None, None)).unwrap_err(), "Slack API erreur : inconnu");
    let taken = accept(response(true, Some("1"), Some("warning"))).unwrap();
    assert!(taken.ok);
    assert_eq!(taken.ts, Some("1".to_string()));
    assert_eq!(taken.error, Some("warning".to_string()));
}

#[test]
fn the_opening_message_names_the_thread() {
    assert_eq!(opened_thread(response(true, Some("12.34"), None)), Ok("12.34".to_string()));
    assert_eq!(
        opened_thread(response(true, None, None)),
        Err("Slack n'a pas retourné de ts. Erreur : ".to_string())
    );
    assert_eq!(
        opened_thread(response(true, None, Some("x"))),
        Err("Slack n'a pas retourné de ts. Erreur : x".to_string())
    );
    assert_eq!(
        opened_thread(response(false, Some("12.34"), Some("not_authed"))),
        Err("Slack API erreur : not_authed".to_string())
    );
}

fn run(total: usize, failing: Option<usize>) -> (Vec<usize>, Option<String>) {
    let mut posts: Vec<usize> = Vec::new();
    let mut last: Result<(), String> = Ok(());
    loop {
        match next_post(posts.len(), total, last) {
            PostStep::Post(position) => {
                posts.push(position);
                last = if failing == Some(position) { Err("panne".to_string()) } else { Ok(()) };
            }
            PostStep::Done => return (posts, None),
            PostStep::Failed(e) => return (posts, Some(e)),
        }
    }
}

#[test]
fn messages_are_posted_in_order_until_one_fails() {
    assert_eq!(run(3, None), (vec![0, 1, 2], None));
    assert_eq!(run(0, None), (vec![], None));
    assert_eq!(run(4, Some(1)), (vec![0, 1], Some("panne".to_string())));
    assert_eq!(run(2, Some(1)), (vec![0, 1], Some("panne".to_string())));
}
