//! What the commands `/warroom start`, `stop` and `status` decide and answer.
use crate::formatter::{
    duration_seconds, format_raw_full, format_structured, summary_messages, transcript_messages,
};
use crate::session::{names_view, segment_views, Segment};
use crate::slack::optional_text;
use crate::text::{decimal, parse_u64, parsed, push_decimal, texts};
use crate::time::{montreal_time, Timestamp};
use std::collections::HashMap;
use vstd::prelude::*;

verus! {

broadcast use {vstd::string::group_string_axioms, vstd::std_specs::hash::group_hash_axioms};

// ---------------------------------------------------------------------------
// Settings
// ---------------------------------------------------------------------------

/// Seconds between two batches where nothing else is set.
pub const DEFAULT_FLUSH_INTERVAL: u64 = 300;

/// The Slack channel: the one asked for, else the one set, else `#warroom`.
pub open spec fn chosen_slack_channel(asked: Option<Seq<char>>, set: Option<Seq<char>>) -> Seq<
    char,
> {
    match (asked, set) {
        (Some(channel), _) => channel,
        (None, Some(channel)) => channel,
        (None, None) => "#warroom"@,
    }
}

/// Chooses the Slack channel.
pub fn target_slack(asked: Option<String>, set: Option<String>) -> (r: String)
    ensures
        r@ == chosen_slack_channel(optional_text(asked), optional_text(set)),
{
    match asked {
        Some(channel) => channel,
        None => match set {
            Some(channel) => channel,
            None => "#warroom".to_owned(),
        },
    }
}

/// The seconds between two batches: as set, where that is a number.
pub open spec fn chosen_flush_interval(set: Option<Seq<char>>) -> nat {
    match set {
        Some(text) => match parsed(text) {
            Some(seconds) => seconds,
            None => DEFAULT_FLUSH_INTERVAL as nat,
        },
        None => DEFAULT_FLUSH_INTERVAL as nat,
    }
}

/// Chooses the seconds between two batches.
pub fn flush_interval(set: Option<String>) -> (r: u64)
    ensures
        r == chosen_flush_interval(optional_text(set)),
{
    match set {
        Some(text) => match parse_u64(text.as_str()) {
            Some(seconds) => seconds,
            None => DEFAULT_FLUSH_INTERVAL,
        },
        None => DEFAULT_FLUSH_INTERVAL,
    }
}

/// The name of a voice channel; its number where the name is not known.
pub open spec fn channel_label(name: Option<Seq<char>>, id: nat) -> Seq<char> {
    match name {
        Some(name) => name,
        None => decimal(id),
    }
}

/// Names a voice channel.
pub fn voice_channel_name(name: Option<String>, id: u64) -> (r: String)
    ensures
        r@ == channel_label(optional_text(name), id as nat),
{
    match name {
        Some(name) => name,
        None => {
            let mut r = String::new();
            push_decimal(&mut r, id);
            assert(r@ =~= decimal(id as nat));
            r
        },
    }
}

/// The names with those of more members, where none is known yet.
pub open spec fn merged_names(names: Map<u64, Seq<char>>, members: Seq<(u64, String)>) -> Map<
    u64,
    Seq<char>,
>
    decreases members.len(),
{
    if members.len() == 0 {
        names
    } else {
        let before = merged_names(names, members.drop_last());
        let (id, name) = members.last();
        if before.contains_key(id) {
            before
        } else {
            before.insert(id, name@)
        }
    }
}

/// Adds the names of members, where none is known yet.
pub fn merge_member_names(names: HashMap<u64, String>, members: &Vec<(u64, String)>) -> (r: HashMap<
    u64,
    String,
>)
    ensures
        names_view(r@) == merged_names(names_view(names@), members@),
{
    let ghost first = names_view(names@);
    let mut names = names;
    for i in 0..members.len()
        invariant
            names_view(names@) == merged_names(first, members@.take(i as int)),
    {
        assert(members@.take(i + 1).drop_last() =~= members@.take(i as int));
        let ghost before = names_view(names@);
        let entry = &members[i];
        if !names.contains_key(&entry.0) {
            names.insert(entry.0, entry.1.clone());
            assert(names_view(names@) =~= before.insert(entry.0, entry.1@));
        }
    }
    assert(members@.take(members@.len() as int) =~= members@);
    names
}

/// Names that are known are kept, whatever the members are called; and every member
/// has a name.
pub proof fn law_known_names_stay(names: Map<u64, Seq<char>>, members: Seq<(u64, String)>, id: u64)
    ensures
        names.contains_key(id) ==> merged_names(names, members).contains_key(id) && merged_names(
            names,
            members,
        )[id] == names[id],
        merged_names(names, members).contains_key(id) <==> names.contains_key(id) || exists|i: int|
            0 <= i < members.len() && (#[trigger] members[i]).0 == id,
    decreases members.len(),
{
    if members.len() > 0 {
        let init = members.drop_last();
        law_known_names_stay(names, init, id);
        assert(members[members.len() - 1] == members.last());
        if exists|i: int| 0 <= i < init.len() && (#[trigger] init[i]).0 == id {
            let i = choose|i: int| 0 <= i < init.len() && (#[trigger] init[i]).0 == id;
            assert(members[i].0 == id);
        }
        if exists|i: int| 0 <= i < members.len() && (#[trigger] members[i]).0 == id {
            let i = choose|i: int| 0 <= i < members.len() && (#[trigger] members[i]).0 == id;
            if i < init.len() {
                assert(init[i].0 == id);
            }
        }
    }
}

// ---------------------------------------------------------------------------
// Texts
// ---------------------------------------------------------------------------

/// The answer while the voice channel is joined.
pub open spec fn connecting_text(channel_name: Seq<char>) -> Seq<char> {
    ":hourglass: Connexion à **"@ + channel_name + "** en cours..."@
}

fn say_connecting(channel_name: &str) -> (r: String)
    ensures
        r@ == connecting_text(channel_name@),
{
    let mut r = ":hourglass: Connexion à **".to_owned();
    r.append(channel_name);
    r.append("** en cours...");
    r
}

/// The answer where the voice channel could not be joined.
pub open spec fn join_failed_text(error: Seq<char>) -> Seq<char> {
    ":x: Impossible de rejoindre le channel vocal : `"@ + error
        + "`\nSi tu vois `4017`, Discord requiert le protocole DAVE E2EE."@
}

fn say_join_failed(error: &str) -> (r: String)
    ensures
        r@ == join_failed_text(error@),
{
    let mut r = ":x: Impossible de rejoindre le channel vocal : `".to_owned();
    r.append(error);
    r.append("`\nSi tu vois `4017`, Discord requiert le protocole DAVE E2EE.");
    r
}

/// The message that opens the Slack thread, given the local time.
pub open spec fn opening_text(
    channel_name: Seq<char>,
    now: Seq<char>,
    flush_interval_secs: nat,
) -> Seq<char> {
    ":red_circle: *War room démarrée* — `#"@ + channel_name + "` — "@ + now
        + "\nLes batches de transcription brute seront postés ici toutes les "@ + decimal(
        flush_interval_secs / 60,
    ) + " min."@
}

/// Writes the message that opens the Slack thread, given the local time.
pub fn opening_message(channel_name: &str, now: &str, flush_interval_secs: u64) -> (r: String)
    ensures
        r@ == opening_text(channel_name@, now@, flush_interval_secs as nat),
{
    let mut r = ":red_circle: *War room démarrée* — `#".to_owned();
    r.append(channel_name);
    r.append("` — ");
    r.append(now);
    r.append("\nLes batches de transcription brute seront postés ici toutes les ");
    push_decimal(&mut r, flush_interval_secs / 60);
    r.append(" min.");
    r
}

/// The answer once the recording goes on.
pub open spec fn started_text(channel_name: Seq<char>, slack_channel: Seq<char>) -> Seq<char> {
    ":red_circle: Enregistrement démarré dans **"@ + channel_name
        + "**.\nThread Slack ouvert dans `"@ + slack_channel
        + "`. Utilise `/warroom stop` pour terminer."@
}

fn say_started(channel_name: &str, slack_channel: &str) -> (r: String)
    ensures
        r@ == started_text(channel_name@, slack_channel@),
{
    let mut r = ":red_circle: Enregistrement démarré dans **".to_owned();
    r.append(channel_name);
    r.append("**.\nThread Slack ouvert dans `");
    r.append(slack_channel);
    r.append("`. Utilise `/warroom stop` pour terminer.");
    r
}

// ---------------------------------------------------------------------------
// /warroom start
// ---------------------------------------------------------------------------

/// All that is needed to start a recording.
pub struct StartSetup {
    pub channel_id: u64,
    pub channel_name: String,
    pub slack_channel: String,
    pub flush_interval_secs: u64,
    pub user_names: HashMap<u64, String>,
}

/// Where the command stands.
pub enum StartState {
    /// Whether a recording goes on already is being looked up.
    CheckingSession,
    /// The guild is being read from the cache.
    ReadingGuild,
    /// The members are being fetched, to complete the names of the cache.
    FetchingMembers { voice_channel: Option<u64>, user_names: HashMap<u64, String> },
    /// The settings and the channel's name are being read.
    ReadingSettings { channel_id: u64, user_names: HashMap<u64, String> },
    /// The user is being told that the channel is joined.
    Announcing(StartSetup),
    /// The voice channel is being joined.
    Joining(StartSetup),
    /// The Slack thread is being opened.
    OpeningThread(StartSetup),
    /// The recording is being started.
    Starting { channel_name: String, slack_channel: String },
    /// Nothing is left to be decided.
    Ended,
}

/// What the cache knows of a guild.
pub struct GuildInfo {
    /// The voice channel in which the author of the command is.
    pub voice_channel: Option<u64>,
    pub user_names: HashMap<u64, String>,
}

/// What is set for a recording.
pub struct StartSettings {
    /// The Slack channel that the command names.
    pub slack_channel: Option<String>,
    /// The Slack channel of the environment.
    pub default_slack_channel: Option<String>,
    /// The interval of the environment.
    pub flush_interval: Option<String>,
    /// The name of the voice channel.
    pub channel_name: Option<String>,
}

/// What came of the last action.
pub enum StartEvent {
    /// Whether a recording goes on in the guild.
    SessionActive(bool),
    /// The guild, if it is in the cache.
    Guild(Option<GuildInfo>),
    /// The members, if they could be fetched.
    Members(Option<Vec<(u64, String)>>),
    Settings(StartSettings),
    /// The user was told.
    Said,
    /// The voice channel was joined at that instant.
    Joined(Timestamp),
    JoinFailed(String),
    /// The thread, if it could be opened.
    ThreadOpened(Result<String, String>),
    SessionStarted,
}

/// What is to be done next.
pub enum StartAction {
    ReadGuild,
    FetchMembers,
    /// Read the settings and the name of that voice channel.
    ReadSettings(u64),
    /// Tell the user.
    Say(String),
    /// Join that voice channel.
    Join(u64),
    /// Open a thread in that Slack channel with that message.
    OpenThread { channel: String, text: String },
    /// Start the recording and post it to that thread.
    StartSession { thread_ts: String, setup: StartSetup },
    /// Report the command as failed.
    Fail(String),
    /// Nothing: the event does not belong to the state.
    Ignore,
}

/// The setup is the one that the settings give for that voice channel.
pub open spec fn is_setup(
    setup: StartSetup,
    channel_id: u64,
    user_names: HashMap<u64, String>,
    settings: StartSettings,
) -> bool {
    &&& setup.channel_id == channel_id
    &&& setup.channel_name@ == channel_label(optional_text(settings.channel_name), channel_id as nat)
    &&& setup.slack_channel@ == chosen_slack_channel(
        optional_text(settings.slack_channel),
        optional_text(settings.default_slack_channel),
    )
    &&& setup.flush_interval_secs == chosen_flush_interval(optional_text(settings.flush_interval))
    &&& setup.user_names == user_names
}

/// The action says that to the user.
pub open spec fn says(action: StartAction, text: Seq<char>) -> bool {
    action matches StartAction::Say(said) && said@ == text
}

/// The action reports that failure.
pub open spec fn fails(action: StartAction, error: Seq<char>) -> bool {
    action matches StartAction::Fail(reported) && reported@ == error
}

/// In `state`, `event` leads to `next`, and `action` is to be done.
pub open spec fn start_step(
    state: StartState,
    event: StartEvent,
    next: StartState,
    action: StartAction,
) -> bool {
    match (state, event) {
        (StartState::CheckingSession, StartEvent::SessionActive(active)) => if active {
            next is Ended && says(
                action,
                "Un enregistrement est déjà en cours. Utilise `/warroom stop` pour le terminer."@,
            )
        } else {
            next is ReadingGuild && action is ReadGuild
        },
        (StartState::ReadingGuild, StartEvent::Guild(guild)) => match guild {
            None => next is Ended && fails(action, "Guild non trouvé dans le cache"@),
            Some(info) => next == StartState::FetchingMembers {
                voice_channel: info.voice_channel,
                user_names: info.user_names,
            } && action is FetchMembers,
        },
        (
            StartState::FetchingMembers { voice_channel, user_names },
            StartEvent::Members(members),
        ) => match voice_channel {
            None => next is Ended && says(
                action,
                "Tu dois être dans un channel vocal pour démarrer l'enregistrement."@,
            ),
            Some(id) => {
                &&& next matches StartState::ReadingSettings { channel_id, user_names: known }
                &&& channel_id == id
                &&& names_view(known@) == match members {
                    Some(members) => merged_names(names_view(user_names@), members@),
                    None => names_view(user_names@),
                }
                &&& action == StartAction::ReadSettings(id)
            },
        },
        (
            StartState::ReadingSettings { channel_id, user_names },
            StartEvent::Settings(settings),
        ) => {
            &&& next matches StartState::Announcing(setup)
            &&& is_setup(setup, channel_id, user_names, settings)
            &&& says(action, connecting_text(setup.channel_name@))
        },
        (StartState::Announcing(setup), StartEvent::Said) => next == StartState::Joining(setup)
            && action == StartAction::Join(setup.channel_id),
        (StartState::Joining(setup), StartEvent::JoinFailed(error)) => next is Ended && says(
            action,
            join_failed_text(error@),
        ),
        (StartState::Joining(setup), StartEvent::Joined(now)) => {
            &&& next == StartState::OpeningThread(setup)
            &&& action matches StartAction::OpenThread { channel, text }
            &&& channel@ == setup.slack_channel@
            &&& text@ == opening_text(
                setup.channel_name@,
                montreal_time(now@, "%Y-%m-%d %H:%M %Z"@),
                setup.flush_interval_secs as nat,
            )
        },
        (StartState::OpeningThread(setup), StartEvent::ThreadOpened(thread)) => match thread {
            Err(error) => next is Ended && fails(action, error@),
            Ok(thread_ts) => {
                &&& next == StartState::Starting {
                    channel_name: setup.channel_name,
                    slack_channel: setup.slack_channel,
                }
                &&& action == StartAction::StartSession { thread_ts, setup }
            },
        },
        (StartState::Starting { channel_name, slack_channel }, StartEvent::SessionStarted) => next
            is Ended && says(action, started_text(channel_name@, slack_channel@)),
        _ => next == state && action is Ignore,
    }
}

/// Takes what came of the last action and decides what is done next.
pub fn start(state: StartState, event: StartEvent) -> (r: (StartState, StartAction))
    ensures
        start_step(state, event, r.0, r.1),
{
    match state {
        StartState::CheckingSession => match event {
            StartEvent::SessionActive(active) => {
                if active {
                    (
                        StartState::Ended,
                        StartAction::Say(
                            "Un enregistrement est déjà en cours. Utilise `/warroom stop` pour le terminer.".to_owned(),
                        ),
                    )
                } else {
                    (StartState::ReadingGuild, StartAction::ReadGuild)
                }
            },
            _ => (StartState::CheckingSession, StartAction::Ignore),
        },
        StartState::ReadingGuild => match event {
            StartEvent::Guild(guild) => match guild {
                None => (
                    StartState::Ended,
                    StartAction::Fail("Guild non trouvé dans le cache".to_owned()),
                ),
                Some(info) => (
                    StartState::FetchingMembers {
                        voice_channel: info.voice_channel,
                        user_names: info.user_names,
                    },
                    StartAction::FetchMembers,
                ),
            },
            _ => (StartState::ReadingGuild, StartAction::Ignore),
        },
        StartState::FetchingMembers { voice_channel, user_names } => match event {
            StartEvent::Members(members) => match voice_channel {
                None => (
                    StartState::Ended,
                    StartAction::Say(
                        "Tu dois être dans un channel vocal pour démarrer l'enregistrement.".to_owned(),
                    ),
                ),
                Some(channel_id) => {
                    let user_names = match members {
                        Some(members) => merge_member_names(user_names, &members),
                        None => user_names,
                    };
                    (
                        StartState::ReadingSettings { channel_id, user_names },
                        StartAction::ReadSettings(channel_id),
                    )
                },
            },
            _ => (
                StartState::FetchingMembers { voice_channel, user_names },
                StartAction::Ignore,
            ),
        },
        StartState::ReadingSettings { channel_id, user_names } => match event {
            StartEvent::Settings(settings) => {
                let setup = StartSetup {
                    channel_id,
                    channel_name: voice_channel_name(settings.channel_name, channel_id),
                    slack_channel: target_slack(
                        settings.slack_channel,
                        settings.default_slack_channel,
                    ),
                    flush_interval_secs: flush_interval(settings.flush_interval),
                    user_names,
                };
                let text = say_connecting(setup.channel_name.as_str());
                (StartState::Announcing(setup), StartAction::Say(text))
            },
            _ => (StartState::ReadingSettings { channel_id, user_names }, StartAction::Ignore),
        },
        StartState::Announcing(setup) => match event {
            StartEvent::Said => {
                let channel_id: u64 = setup.channel_id;
                (StartState::Joining(setup), StartAction::Join(channel_id))
            },
            _ => (StartState::Announcing(setup), StartAction::Ignore),
        },
        StartState::Joining(setup) => match event {
            StartEvent::JoinFailed(error) => (
                StartState::Ended,
                StartAction::Say(say_join_failed(error.as_str())),
            ),
            StartEvent::Joined(now) => {
                let local = now.to_local("%Y-%m-%d %H:%M %Z");
                let text = opening_message(
                    setup.channel_name.as_str(),
                    local.as_str(),
                    setup.flush_interval_secs,
                );
                let channel = setup.slack_channel.clone();
                (StartState::OpeningThread(setup), StartAction::OpenThread { channel, text })
            },
            _ => (StartState::Joining(setup), StartAction::Ignore),
        },
        StartState::OpeningThread(setup) => match event {
            StartEvent::ThreadOpened(thread) => match thread {
                Err(error) => (StartState::Ended, StartAction::Fail(error)),
                Ok(thread_ts) => (
                    StartState::Starting {
                        channel_name: setup.channel_name.clone(),
                        slack_channel: setup.slack_channel.clone(),
                    },
                    StartAction::StartSession { thread_ts, setup },
                ),
            },
            _ => (StartState::OpeningThread(setup), StartAction::Ignore),
        },
        StartState::Starting { channel_name, slack_channel } => match event {
            StartEvent::SessionStarted => (
                StartState::Ended,
                StartAction::Say(say_started(channel_name.as_str(), slack_channel.as_str())),
            ),
            _ => (StartState::Starting { channel_name, slack_channel }, StartAction::Ignore),
        },
        StartState::Ended => (StartState::Ended, StartAction::Ignore),
    }
}

/// Where a recording goes on already, the command joins nothing, opens no thread and
/// starts no second recording: it says so and ends.
pub proof fn law_one_recording(state: StartState, next: StartState, action: StartAction)
    requires
        state is CheckingSession,
        start_step(state, StartEvent::SessionActive(true), next, action),
    ensures
        next is Ended,
        action is Say,
{
}

/// Once the command has ended, nothing more is done.
pub proof fn law_ended_is_final(event: StartEvent, next: StartState, action: StartAction)
    requires
        start_step(StartState::Ended, event, next, action),
    ensures
        next is Ended,
        action is Ignore,
{
}

/// A thread is opened only once the voice channel is joined, and a recording is
/// started only in a thread that was opened.
pub proof fn law_order_of_steps(
    state: StartState,
    event: StartEvent,
    next: StartState,
    action: StartAction,
)
    requires
        start_step(state, event, next, action),
    ensures
        action is OpenThread ==> state is Joining && event is Joined,
        next is OpeningThread ==> state is OpeningThread || event is Joined,
        action matches StartAction::StartSession { thread_ts, setup } ==> state
            == StartState::OpeningThread(setup) && event == StartEvent::ThreadOpened(
            Ok(thread_ts),
        ),
        action matches StartAction::Join(id) ==> (state matches StartState::Announcing(setup)
            && setup.channel_id == id),
{
}

// ---------------------------------------------------------------------------
// /warroom stop
// ---------------------------------------------------------------------------

/// What is posted at the end of a recording.
#[derive(Clone, Copy, PartialEq, Eq, Structural, Debug)]
pub enum OutputFormat {
    Raw,
    Structured,
    Both,
}

/// One of the texts that are posted at the end.
#[derive(Clone, Copy, PartialEq, Eq, Structural, Debug)]
pub enum ReportKind {
    Raw,
    Structured,
}

/// A text to post, as messages.
#[derive(Debug)]
pub struct Report {
    pub kind: ReportKind,
    pub chunks: Vec<String>,
}

/// The name of a format.
pub open spec fn format_label(output: OutputFormat) -> Seq<char> {
    match output {
        OutputFormat::Raw => "raw"@,
        OutputFormat::Structured => "structured"@,
        OutputFormat::Both => "both"@,
    }
}

/// The format that is asked for; the summary where none is.
pub open spec fn chosen_output(asked: Option<OutputFormat>) -> OutputFormat {
    match asked {
        Some(output) => output,
        None => OutputFormat::Structured,
    }
}

impl OutputFormat {
    /// Chooses the format: the summary where none is asked for.
    pub fn chosen(asked: Option<OutputFormat>) -> (r: OutputFormat)
        ensures
            r == chosen_output(asked),
    {
        match asked {
            Some(output) => output,
            None => OutputFormat::Structured,
        }
    }

    /// The name of the format.
    pub fn name(self) -> (r: String)
        ensures
            r@ == format_label(self),
    {
        match self {
            OutputFormat::Raw => "raw".to_owned(),
            OutputFormat::Structured => "structured".to_owned(),
            OutputFormat::Both => "both".to_owned(),
        }
    }

    /// The texts that the format asks for, in the order in which they are posted.
    pub open spec fn kinds(self) -> Seq<ReportKind> {
        match self {
            OutputFormat::Raw => seq![ReportKind::Raw],
            OutputFormat::Structured => seq![ReportKind::Structured],
            OutputFormat::Both => seq![ReportKind::Raw, ReportKind::Structured],
        }
    }

    /// Lists the texts that the format asks for, in the order in which they are posted.
    pub fn reports(self) -> (r: Vec<ReportKind>)
        ensures
            r@ == self.kinds(),
    {
        let mut r: Vec<ReportKind> = Vec::new();
        if self == OutputFormat::Raw || self == OutputFormat::Both {
            r.push(ReportKind::Raw);
        }
        if self == OutputFormat::Structured || self == OutputFormat::Both {
            r.push(ReportKind::Structured);
        }
        assert(r@ =~= self.kinds());
        r
    }
}

/// The report is of that kind, for that recording.
pub open spec fn is_report(
    report: Report,
    kind: ReportKind,
    segments: Seq<Segment>,
    channel_name: Seq<char>,
    start: int,
    end: int,
) -> bool {
    &&& report.kind == kind
    &&& texts(report.chunks@) == match kind {
        ReportKind::Raw => transcript_messages(
            segment_views(segments),
            channel_name,
            montreal_time(start, "%Y-%m-%d"@),
            montreal_time(start, "%H:%M:%S %Z"@),
            montreal_time(end, "%H:%M:%S %Z"@),
            duration_seconds(start, end),
        ),
        ReportKind::Structured => summary_messages(
            segment_views(segments),
            channel_name,
            montreal_time(start, "%Y-%m-%d"@),
            montreal_time(start, "%H:%M %Z"@),
            montreal_time(end, "%H:%M %Z"@),
            duration_seconds(start, end),
        ),
    }
}

/// Makes the report of that kind.
pub fn make_report(
    kind: ReportKind,
    all_segments: &[Segment],
    channel_name: &str,
    start_time: Timestamp,
    end_time: Timestamp,
) -> (r: Report)
    ensures
        is_report(r, kind, all_segments@, channel_name@, start_time@, end_time@),
{
    let chunks = match kind {
        ReportKind::Raw => format_raw_full(all_segments, channel_name, start_time, end_time),
        ReportKind::Structured => format_structured(
            all_segments,
            channel_name,
            start_time,
            end_time,
        ),
    };
    Report { kind, chunks }
}

/// What the user is told once the voice channel is left.
pub open spec fn left_text(channel_name: Seq<char>) -> Seq<char> {
    ":stop_button: Déconnecté de **"@ + channel_name
        + "**. Transcription en cours en arrière-plan..."@
}

fn say_left(channel_name: &str) -> (r: String)
    ensures
        r@ == left_text(channel_name@),
{
    let mut r = ":stop_button: Déconnecté de **".to_owned();
    r.append(channel_name);
    r.append("**. Transcription en cours en arrière-plan...");
    r
}

/// What the user is told once everything is posted.
pub open spec fn posted_text(output: OutputFormat, slack_channel: Seq<char>) -> Seq<char> {
    ":white_check_mark: Transcription **"@ + format_label(output) + "** terminée — postée dans `"@
        + slack_channel + "`."@
}

/// Tells the user that everything is posted.
fn say_posted(output: OutputFormat, slack_channel: &str) -> (r: String)
    ensures
        r@ == posted_text(output, slack_channel@),
{
    let mut r = ":white_check_mark: Transcription **".to_owned();
    r.append(output.name().as_str());
    r.append("** terminée — postée dans `");
    r.append(slack_channel);
    r.append("`.");
    r
}

/// A recording that is taken out of the list of those that go on.
#[derive(Debug)]
pub struct StoppedRecording {
    pub voice_channel_name: String,
    pub slack_channel: String,
    pub start_time: Timestamp,
}

/// Where the command stands.
#[derive(Debug)]
pub enum StopState {
    /// The recording of the guild is being looked up.
    LookingUp { asked: Option<OutputFormat> },
    /// The voice channel is being left.
    Leaving { output: OutputFormat, recording: StoppedRecording },
    /// The user is being told.
    Announcing { output: OutputFormat, recording: StoppedRecording },
    /// The last batch is being closed and transcribed.
    Closing { output: OutputFormat, recording: StoppedRecording },
    /// A report is being posted, after `posted` others.
    Posting {
        output: OutputFormat,
        recording: StoppedRecording,
        end_time: Timestamp,
        all_segments: Vec<Segment>,
        posted: usize,
    },
    /// Nothing is left to be decided.
    Ended,
}

/// What came of the last action.
#[derive(Debug)]
pub enum StopEvent {
    /// The recording of the guild, if one went on. It goes on no more.
    Recording(Option<StoppedRecording>),
    /// The voice channel was left, or could not be.
    Left,
    /// The user was told.
    Said,
    /// The recording is over, and that is all that was said.
    Closed { end_time: Timestamp, all_segments: Vec<Segment> },
    /// The report was posted, or could not be.
    Posted,
}

/// What is to be done next.
#[derive(Debug)]
pub enum StopAction {
    /// Tell the user.
    Say(String),
    /// Leave the voice channel.
    Leave,
    /// Close the last batch, in the background.
    Close,
    /// Post the report to the thread.
    Post(Report),
    /// Tell the channel of the command that all is done.
    Confirm(String),
    /// Nothing: the event does not belong to the state.
    Ignore,
}

/// The action posts the report of that kind.
pub open spec fn posts_report(
    action: StopAction,
    kind: ReportKind,
    recording: StoppedRecording,
    segments: Seq<Segment>,
    end_time: Timestamp,
) -> bool {
    action matches StopAction::Post(report) && is_report(
        report,
        kind,
        segments,
        recording.voice_channel_name@,
        recording.start_time@,
        end_time@,
    )
}

/// In `state`, `event` leads to `next`, and `action` is to be done.
pub open spec fn stop_step(
    state: StopState,
    event: StopEvent,
    next: StopState,
    action: StopAction,
) -> bool {
    match (state, event) {
        (StopState::LookingUp { asked }, StopEvent::Recording(found)) => match found {
            None => next is Ended && (action matches StopAction::Say(said) && said@
                == "Aucun enregistrement actif."@),
            Some(recording) => next == (StopState::Leaving {
                output: chosen_output(asked),
                recording,
            }) && action is Leave,
        },
        (StopState::Leaving { output, recording }, StopEvent::Left) => next
            == (StopState::Announcing { output, recording }) && (action matches StopAction::Say(
            said,
        ) && said@ == left_text(recording.voice_channel_name@)),
        (StopState::Announcing { output, recording }, StopEvent::Said) => next
            == (StopState::Closing { output, recording }) && action is Close,
        (
            StopState::Closing { output, recording },
            StopEvent::Closed { end_time, all_segments },
        ) => next == (StopState::Posting { output, recording, end_time, all_segments, posted: 0 })
            && posts_report(action, output.kinds()[0], recording, all_segments@, end_time),
        (
            StopState::Posting { output, recording, end_time, all_segments, posted },
            StopEvent::Posted,
        ) => if posted + 1 < output.kinds().len() {
            next == (StopState::Posting {
                output,
                recording,
                end_time,
                all_segments,
                posted: (posted + 1) as usize,
            }) && posts_report(
                action,
                output.kinds()[posted + 1],
                recording,
                all_segments@,
                end_time,
            )
        } else {
            next is Ended && (action matches StopAction::Confirm(said) && said@ == posted_text(
                output,
                recording.slack_channel@,
            ))
        },
        _ => next == state && action is Ignore,
    }
}

/// Takes what came of the last action and decides what is done next.
pub fn stop(state: StopState, event: StopEvent) -> (r: (StopState, StopAction))
    ensures
        stop_step(state, event, r.0, r.1),
{
    match state {
        StopState::LookingUp { asked } => match event {
            StopEvent::Recording(found) => match found {
                None => (
                    StopState::Ended,
                    StopAction::Say("Aucun enregistrement actif.".to_owned()),
                ),
                Some(recording) => (
                    StopState::Leaving { output: OutputFormat::chosen(asked), recording },
                    StopAction::Leave,
                ),
            },
            _ => (StopState::LookingUp { asked }, StopAction::Ignore),
        },
        StopState::Leaving { output, recording } => match event {
            StopEvent::Left => {
                let text = say_left(recording.voice_channel_name.as_str());
                (StopState::Announcing { output, recording }, StopAction::Say(text))
            },
            _ => (StopState::Leaving { output, recording }, StopAction::Ignore),
        },
        StopState::Announcing { output, recording } => match event {
            StopEvent::Said => (StopState::Closing { output, recording }, StopAction::Close),
            _ => (StopState::Announcing { output, recording }, StopAction::Ignore),
        },
        StopState::Closing { output, recording } => match event {
            StopEvent::Closed { end_time, all_segments } => {
                let kinds = output.reports();
                let report = make_report(
                    kinds[0],
                    all_segments.as_slice(),
                    recording.voice_channel_name.as_str(),
                    recording.start_time,
                    end_time,
                );
                (
                    StopState::Posting { output, recording, end_time, all_segments, posted: 0 },
                    StopAction::Post(report),
                )
            },
            _ => (StopState::Closing { output, recording }, StopAction::Ignore),
        },
        StopState::Posting { output, recording, end_time, all_segments, posted } => match event {
            StopEvent::Posted => {
                let kinds = output.reports();
                if posted < kinds.len() - 1 {
                    let report = make_report(
                        kinds[posted + 1],
                        all_segments.as_slice(),
                        recording.voice_channel_name.as_str(),
                        recording.start_time,
                        end_time,
                    );
                    (
                        StopState::Posting {
                            output,
                            recording,
                            end_time,
                            all_segments,
                            posted: posted + 1,
                        },
                        StopAction::Post(report),
                    )
                } else {
                    let text = say_posted(output, recording.slack_channel.as_str());
                    (StopState::Ended, StopAction::Confirm(text))
                }
            },
            _ => (
                StopState::Posting { output, recording, end_time, all_segments, posted },
                StopAction::Ignore,
            ),
        },
        StopState::Ended => (StopState::Ended, StopAction::Ignore),
    }
}

/// The voice channel is left before the last batch is closed: nobody waits in it for
/// the transcription.
pub proof fn law_left_before_closing(
    state: StopState,
    event: StopEvent,
    next: StopState,
    action: StopAction,
)
    requires
        stop_step(state, event, next, action),
    ensures
        action is Close ==> state is Announcing,
        next is Announcing ==> state is Announcing || (state is Leaving && event is Left),
        next is Leaving ==> state is Leaving || action is Leave,
{
}

/// Once the recording is over, the reports of the chosen format are posted, each
/// once and in order, whatever comes of each; and only then all is declared done.
pub proof fn law_reports_in_order(
    state: StopState,
    event: StopEvent,
    next: StopState,
    action: StopAction,
)
    requires
        stop_step(state, event, next, action),
    ensures
        (action matches StopAction::Post(report) ==> (next matches StopState::Posting {
            output,
            posted,
            ..
        } && posted < output.kinds().len() && report.kind == output.kinds()[posted as int])),
        event is Posted ==> (state matches StopState::Posting { output, posted, .. } ==> (if posted
            + 1 < output.kinds().len() {
            next matches StopState::Posting { output: same, posted: more, .. } && same == output
                && more == posted + 1
        } else {
            next is Ended && action is Confirm
        })),
        action is Confirm ==> state is Posting && event is Posted,
{
}

/// Without a recording nothing is left, closed or posted.
pub proof fn law_nothing_to_stop(
    asked: Option<OutputFormat>,
    next: StopState,
    action: StopAction,
)
    requires
        stop_step(StopState::LookingUp { asked }, StopEvent::Recording(None), next, action),
    ensures
        next is Ended,
        action is Say,
{
}

// ---------------------------------------------------------------------------
// /warroom status
// ---------------------------------------------------------------------------

/// A recording that goes on. How many batches it has closed is not known while it is
/// busy.
#[derive(Debug)]
pub struct ActiveRecording {
    pub voice_channel_name: String,
    pub duration: String,
    pub batch_count: Option<u32>,
}

/// The answer to `/warroom status`.
pub open spec fn status_text(active: Option<ActiveRecording>) -> Seq<char> {
    match active {
        Some(recording) => ":red_circle: Enregistrement actif dans **"@
            + recording.voice_channel_name@ + "** depuis **"@ + recording.duration@ + "** ("@
            + decimal(
            match recording.batch_count {
                Some(count) => count as nat,
                None => 0,
            },
        ) + " batch(s) traité(s))."@,
        None => "Aucun enregistrement actif."@,
    }
}

/// Answers `/warroom status`.
pub fn status(active: Option<ActiveRecording>) -> (r: String)
    ensures
        r@ == status_text(active),
{
    match active {
        Some(recording) => {
            let mut r = ":red_circle: Enregistrement actif dans **".to_owned();
            r.append(recording.voice_channel_name.as_str());
            r.append("** depuis **");
            r.append(recording.duration.as_str());
            r.append("** (");
            let count: u32 = match recording.batch_count {
                Some(count) => count,
                None => 0,
            };
            push_decimal(&mut r, count as u64);
            r.append(" batch(s) traité(s)).");
            r
        },
        None => "Aucun enregistrement actif.".to_owned(),
    }
}

} // verus!
