//! What holds of every run of the commands, and of every event of a recording.
use crate::commands::{
    channel_label, chosen_flush_interval, chosen_output, chosen_slack_channel, format_label,
    merged_names, start_step, status_text, stop_step, ActiveRecording, GuildInfo, OutputFormat,
    ReportKind, StartAction, StartEvent, StartSettings, StartState, StopAction, StopEvent,
    StopState, StoppedRecording,
};
use crate::flush_loop::{FlushAction, FlushEvent, FlushLoop};
use crate::formatter::{duration_seconds, summary_messages, transcript_messages};
use crate::recordings::recording_of;
use crate::registration::{
    commands_address, failure_text, pause_millis, step_after, RegistrationStep,
};
use crate::session::{names_view, segment_views, Segment, SessionState};
use crate::slack::{missing_thread, optional_text, position_after, refusal};
use crate::text::{decimal, parsed, texts};
use crate::text_laws::law_parsed;
use crate::time::{is_instant, montreal_time, total_nanos, truncated_div, Timestamp};
use crate::voice_handler::{after_event, after_tick, VoiceEvent};
use vstd::prelude::*;

verus! {

// ---------------------------------------------------------------------------
// Settings and names
// ---------------------------------------------------------------------------

/// What is asked for comes before what is set, and that before the default. The interval
/// is as set where that is a number, else 300 seconds. A channel goes by its name, or
/// else by its number.
pub proof fn law_settings(asked: Seq<char>, set: Option<Seq<char>>, text: Seq<char>, n: nat)
    ensures
        chosen_slack_channel(Some(asked), set) == asked,
        chosen_slack_channel(None, Some(text)) == text,
        chosen_slack_channel(None, None) == "#warroom"@,
        chosen_flush_interval(None) == 300,
        parsed(text) is None ==> chosen_flush_interval(Some(text)) == 300,
        n <= u64::MAX ==> chosen_flush_interval(Some(decimal(n))) == n,
        channel_label(Some(text), n) == text,
        channel_label(None, n) == decimal(n),
{
    crate::text_laws::law_decimal(n);
    law_parsed(decimal(n), n);
}

/// Members who come one list after the other are named one list after the other.
pub proof fn law_names_merge_in_turn(
    names: Map<u64, Seq<char>>,
    a: Seq<(u64, String)>,
    b: Seq<(u64, String)>,
)
    ensures
        merged_names(names, a + b) == merged_names(merged_names(names, a), b),
        merged_names(names, Seq::empty()) == names,
    decreases b.len(),
{
    if b.len() == 0 {
        assert(a + b =~= a);
    } else {
        law_names_merge_in_turn(names, a, b.drop_last());
        assert((a + b).drop_last() =~= a + b.drop_last());
        assert((a + b).last() == b.last());
    }
}

/// A member who is not known yet gets their name, one who is keeps theirs; nobody else is
/// named by it.
pub proof fn law_one_member(names: Map<u64, Seq<char>>, member: (u64, String))
    ensures
        names.contains_key(member.0) ==> merged_names(names, seq![member]) == names,
        !names.contains_key(member.0) ==> merged_names(names, seq![member]) == names.insert(
            member.0,
            member.1@,
        ),
{
    assert(seq![member].drop_last() =~= Seq::<(u64, String)>::empty());
    assert(seq![member].last() == member);
    assert(merged_names(names, seq![member].drop_last()) == names);
}

// ---------------------------------------------------------------------------
// /warroom start
// ---------------------------------------------------------------------------

/// Where all goes well: the guild is read, the members are fetched, the settings are read
/// for the author's channel, the author is told, that channel is joined, a thread is
/// opened in the chosen Slack channel, the recording is started in that thread with what
/// was chosen, and the author is told.
pub proof fn law_start_goes_well(
    id: u64,
    info: GuildInfo,
    members: Option<Vec<(u64, String)>>,
    settings: StartSettings,
    now: Timestamp,
    ts: String,
    states: Seq<StartState>,
    actions: Seq<StartAction>,
)
    requires
        states.len() == 9,
        actions.len() == 8,
        info.voice_channel == Some(id),
        states[0] is CheckingSession,
        start_step(states[0], StartEvent::SessionActive(false), states[1], actions[0]),
        start_step(states[1], StartEvent::Guild(Some(info)), states[2], actions[1]),
        start_step(states[2], StartEvent::Members(members), states[3], actions[2]),
        start_step(states[3], StartEvent::Settings(settings), states[4], actions[3]),
        start_step(states[4], StartEvent::Said, states[5], actions[4]),
        start_step(states[5], StartEvent::Joined(now), states[6], actions[5]),
        start_step(states[6], StartEvent::ThreadOpened(Ok(ts)), states[7], actions[6]),
        start_step(states[7], StartEvent::SessionStarted, states[8], actions[7]),
    ensures
        ({
            let name = channel_label(optional_text(settings.channel_name), id as nat);
            let slack = chosen_slack_channel(
                optional_text(settings.slack_channel),
                optional_text(settings.default_slack_channel),
            );
            let interval = chosen_flush_interval(optional_text(settings.flush_interval));
            &&& actions[0] is ReadGuild
            &&& actions[1] is FetchMembers
            &&& actions[2] == StartAction::ReadSettings(id)
            &&& (actions[3] matches StartAction::Say(said) && said@
                == ":hourglass: Connexion à **"@ + name + "** en cours..."@)
            &&& actions[4] == StartAction::Join(id)
            &&& (actions[5] matches StartAction::OpenThread { channel, text } && channel@ == slack
                && text@ == ":red_circle: *War room démarrée* — `#"@ + name + "` — "@
                + montreal_time(now@, "%Y-%m-%d %H:%M %Z"@)
                + "\nLes batches de transcription brute seront postés ici toutes les "@ + decimal(
                interval / 60,
            ) + " min."@)
            &&& (actions[6] matches StartAction::StartSession { thread_ts, setup } && thread_ts
                == ts && setup.channel_id == id && setup.channel_name@ == name
                && setup.slack_channel@ == slack && setup.flush_interval_secs == interval
                && names_view(setup.user_names@) == match members {
                Some(members) => merged_names(names_view(info.user_names@), members@),
                None => names_view(info.user_names@),
            })
            &&& (actions[7] matches StartAction::Say(said) && said@
                == ":red_circle: Enregistrement démarré dans **"@ + name
                + "**.\nThread Slack ouvert dans `"@ + slack
                + "`. Utilise `/warroom stop` pour terminer."@)
            &&& states[8] is Ended
        }),
{
}

/// Where something stands in the way, the author is told what, or the command fails with
/// it, and nothing more is done: a recording that goes on already, a guild that is not
/// known, an author in no voice channel, a channel that cannot be joined, a thread that
/// cannot be opened.
pub proof fn law_start_gives_up(
    state: StartState,
    event: StartEvent,
    next: StartState,
    action: StartAction,
)
    requires
        start_step(state, event, next, action),
    ensures
        state is CheckingSession && event == StartEvent::SessionActive(true) ==> next is Ended && (
        action matches StartAction::Say(said) && said@
            == "Un enregistrement est déjà en cours. Utilise `/warroom stop` pour le terminer."@),
        state is ReadingGuild && event == StartEvent::Guild(None) ==> next is Ended && (
        action matches StartAction::Fail(error) && error@ == "Guild non trouvé dans le cache"@),
        (state matches StartState::FetchingMembers { voice_channel: None, .. }) && event is Members
            ==> next is Ended && (action matches StartAction::Say(said) && said@
            == "Tu dois être dans un channel vocal pour démarrer l'enregistrement."@),
        state is Joining ==> (event matches StartEvent::JoinFailed(error) ==> next is Ended && (
        action matches StartAction::Say(said) && said@
            == ":x: Impossible de rejoindre le channel vocal : `"@ + error@
            + "`\nSi tu vois `4017`, Discord requiert le protocole DAVE E2EE."@)),
        state is OpeningThread ==> (event matches StartEvent::ThreadOpened(Err(error)) ==> next
            is Ended && (action matches StartAction::Fail(reported) && reported@ == error@)),
{
}

/// An event that the command does not wait for changes nothing and is answered by
/// nothing.
pub proof fn law_start_waits(
    state: StartState,
    event: StartEvent,
    next: StartState,
    action: StartAction,
)
    requires
        start_step(state, event, next, action),
        state is CheckingSession ==> !(event is SessionActive),
        state is ReadingGuild ==> !(event is Guild),
        state is FetchingMembers ==> !(event is Members),
        state is ReadingSettings ==> !(event is Settings),
        state is Announcing ==> !(event is Said),
        state is Joining ==> !(event is Joined) && !(event is JoinFailed),
        state is OpeningThread ==> !(event is ThreadOpened),
        state is Starting ==> !(event is SessionStarted),
    ensures
        next == state,
        action is Ignore,
{
}

// ---------------------------------------------------------------------------
// /warroom stop and status
// ---------------------------------------------------------------------------

/// Where a recording goes on, the channel is left, the user is told, the last batch is
/// closed, and the first report is posted: the raw transcript where it is asked for, or
/// else the summary.
pub proof fn law_stop_goes_well(
    asked: Option<OutputFormat>,
    recording: StoppedRecording,
    end: Timestamp,
    segments: Vec<Segment>,
    states: Seq<StopState>,
    actions: Seq<StopAction>,
)
    requires
        states.len() == 5,
        actions.len() == 4,
        states[0] == (StopState::LookingUp { asked }),
        stop_step(states[0], StopEvent::Recording(Some(recording)), states[1], actions[0]),
        stop_step(states[1], StopEvent::Left, states[2], actions[1]),
        stop_step(states[2], StopEvent::Said, states[3], actions[2]),
        stop_step(
            states[3],
            StopEvent::Closed { end_time: end, all_segments: segments },
            states[4],
            actions[3],
        ),
    ensures
        actions[0] is Leave,
        actions[1] matches StopAction::Say(said) && said@ == ":stop_button: Déconnecté de **"@
            + recording.voice_channel_name@ + "**. Transcription en cours en arrière-plan..."@,
        actions[2] is Close,
        asked == Some(OutputFormat::Raw) || asked == Some(OutputFormat::Both) ==> posts_transcript(
            actions[3],
            recording,
            segments@,
            end,
        ),
        asked is None || asked == Some(OutputFormat::Structured) ==> posts_summary(
            actions[3],
            recording,
            segments@,
            end,
        ),
        states[4] == (StopState::Posting {
            output: chosen_output(asked),
            recording,
            end_time: end,
            all_segments: segments,
            posted: 0,
        }),
        chosen_output(asked) == match asked {
            Some(output) => output,
            None => OutputFormat::Structured,
        },
{
}

/// The action posts the raw transcript of all that was said.
pub open spec fn posts_transcript(
    action: StopAction,
    recording: StoppedRecording,
    segments: Seq<Segment>,
    end: Timestamp,
) -> bool {
    action matches StopAction::Post(report) && report.kind == ReportKind::Raw && texts(
        report.chunks@,
    ) == transcript_messages(
        segment_views(segments),
        recording.voice_channel_name@,
        montreal_time(recording.start_time@, "%Y-%m-%d"@),
        montreal_time(recording.start_time@, "%H:%M:%S %Z"@),
        montreal_time(end@, "%H:%M:%S %Z"@),
        duration_seconds(recording.start_time@, end@),
    )
}

/// The action posts the summary of all that was said.
pub open spec fn posts_summary(
    action: StopAction,
    recording: StoppedRecording,
    segments: Seq<Segment>,
    end: Timestamp,
) -> bool {
    action matches StopAction::Post(report) && report.kind == ReportKind::Structured && texts(
        report.chunks@,
    ) == summary_messages(
        segment_views(segments),
        recording.voice_channel_name@,
        montreal_time(recording.start_time@, "%Y-%m-%d"@),
        montreal_time(recording.start_time@, "%H:%M %Z"@),
        montreal_time(end@, "%H:%M %Z"@),
        duration_seconds(recording.start_time@, end@),
    )
}

/// After the first report comes the summary where both are asked for; then all is
/// declared done, under the name of the format.
pub proof fn law_stop_posts_what_was_asked(
    output: OutputFormat,
    recording: StoppedRecording,
    end: Timestamp,
    segments: Vec<Segment>,
    posted: usize,
    next: StopState,
    action: StopAction,
)
    requires
        stop_step(
            StopState::Posting {
                output,
                recording,
                end_time: end,
                all_segments: segments,
                posted,
            },
            StopEvent::Posted,
            next,
            action,
        ),
    ensures
        output == OutputFormat::Both && posted == 0 ==> posts_summary(
            action,
            recording,
            segments@,
            end,
        ) && next == (StopState::Posting {
            output,
            recording,
            end_time: end,
            all_segments: segments,
            posted: 1,
        }),
        output != OutputFormat::Both || posted >= 1 ==> next is Ended && (
        action matches StopAction::Confirm(said) && said@
            == ":white_check_mark: Transcription **"@ + (match output {
            OutputFormat::Raw => "raw"@,
            OutputFormat::Structured => "structured"@,
            OutputFormat::Both => "both"@,
        }) + "** terminée — postée dans `"@ + recording.slack_channel@ + "`."@),
{
    assert(format_label(output) == match output {
        OutputFormat::Raw => "raw"@,
        OutputFormat::Structured => "structured"@,
        OutputFormat::Both => "both"@,
    });
}

/// An event that the command does not wait for changes nothing and is answered by
/// nothing.
pub proof fn law_stop_waits(state: StopState, event: StopEvent, next: StopState, action: StopAction)
    requires
        stop_step(state, event, next, action),
        state is LookingUp ==> !(event is Recording),
        state is Leaving ==> !(event is Left),
        state is Announcing ==> !(event is Said),
        state is Closing ==> !(event is Closed),
        state is Posting ==> !(event is Posted),
    ensures
        next == state,
        action is Ignore,
{
}

/// The status names the channel, how long the recording has gone on and how many batches
/// it has closed, none where that is not known.
pub proof fn law_status(active: ActiveRecording)
    ensures
        status_text(Some(active)) == ":red_circle: Enregistrement actif dans **"@
            + active.voice_channel_name@ + "** depuis **"@ + active.duration@ + "** ("@ + decimal(
            match active.batch_count {
                Some(count) => count as nat,
                None => 0,
            },
        ) + " batch(s) traité(s))."@,
        status_text(None) == "Aucun enregistrement actif."@,
{
}

// ---------------------------------------------------------------------------
// Events of the voice channel
// ---------------------------------------------------------------------------

/// The sources of a tick come in one after the other: two lists of them as one tick do
/// what they do as two.
pub proof fn law_ticks_follow(
    state: SessionState,
    a: Seq<(u32, Option<Vec<i16>>)>,
    b: Seq<(u32, Option<Vec<i16>>)>,
    now: int,
)
    ensures
        after_tick(state, a + b, now) == after_tick(after_tick(state, a, now), b, now),
        after_tick(state, Seq::empty(), now) == state,
    decreases b.len(),
{
    if b.len() == 0 {
        assert(a + b =~= a);
    } else {
        law_ticks_follow(state, a, b.drop_last(), now);
        assert((a + b).drop_last() =~= a + b.drop_last());
        assert((a + b).last() == b.last());
    }
}

/// A source with samples brings them in, one without does nothing.
pub proof fn law_one_source(state: SessionState, ssrc: u32, samples: Option<Vec<i16>>, now: int)
    ensures
        after_tick(state, seq![(ssrc, samples)], now) == match samples {
            Some(samples) => state.with_audio(ssrc, samples@, now),
            None => state,
        },
{
    let tick = seq![(ssrc, samples)];
    assert(tick.drop_last() =~= Seq::<(u32, Option<Vec<i16>>)>::empty());
    assert(tick.last() == (ssrc, samples));
    assert(after_tick(state, tick.drop_last(), now) == state);
}

/// Audio comes in with a tick. A source is registered where it is said whose it is, under
/// a name made of the user's number. Nothing else changes a recording.
pub proof fn law_events(state: SessionState, event: VoiceEvent, now: int)
    ensures
        (event matches VoiceEvent::VoiceTick(speaking) ==> after_event(state, event, now)
            == after_tick(state, speaking@, now)),
        (event matches VoiceEvent::SpeakingStateUpdate { ssrc, user_id: Some(user) }
            ==> after_event(state, event, now) == state.with_registration(
            ssrc,
            user,
            seq!['U', 's', 'e', 'r', '#'] + decimal(user as nat),
        )),
        (event matches VoiceEvent::SpeakingStateUpdate { ssrc, user_id: None } ==> after_event(
            state,
            event,
            now,
        ) == state),
        event is ClientDisconnect || event is Other ==> after_event(state, event, now) == state,
{
    reveal_strlit("User#");
    assert("User#"@ =~= seq!['U', 's', 'e', 'r', '#']);
}

// ---------------------------------------------------------------------------
// Slack, batches, registration, instants
// ---------------------------------------------------------------------------

/// What is reported of a refusal: the error that Slack names, if it names one. What comes
/// next is always the first message that is not posted yet.
pub proof fn law_slack(error: Seq<char>, text: Option<String>, posted: nat, total: nat)
    ensures
        refusal(Some(error)) == "Slack API erreur : "@ + error,
        refusal(None) == "Slack API erreur : "@ + "inconnu"@,
        missing_thread(Some(error)) == "Slack n'a pas retourné de ts. Erreur : "@ + error,
        missing_thread(None) == "Slack n'a pas retourné de ts. Erreur : "@,
        (text matches Some(t) ==> optional_text(text) == Some(t@)),
        text is None ==> optional_text(text) is None,
        posted < total ==> position_after(posted, total) == Some(posted),
        posted >= total ==> position_after(posted, total) is None,
{
    assert("Slack n'a pas retourné de ts. Erreur : "@ + Seq::<char>::empty()
        =~= "Slack n'a pas retourné de ts. Erreur : "@);
}

/// While it waits the loop goes on waiting but for the interval and the signal; a batch
/// is gone on with until it is done; and after it the loop waits again, unless it was
/// told to stop.
pub proof fn law_loop_goes_on(event: FlushEvent)
    ensures
        FlushLoop::Sleeping.after(FlushEvent::IntervalElapsed) == (
            FlushLoop::Flushing,
            FlushAction::Flush,
        ),
        FlushLoop::Sleeping.after(FlushEvent::StopSignal) == (FlushLoop::Ended, FlushAction::Exit),
        event is FlushDone ==> FlushLoop::Sleeping.after(event) == (
            FlushLoop::Sleeping,
            FlushAction::Sleep,
        ),
        !(event is FlushDone) ==> FlushLoop::Flushing.after(event) == (
            FlushLoop::Flushing,
            FlushAction::Continue,
        ),
        FlushLoop::Flushing.after(FlushEvent::FlushDone { stop_requested: false }) == (
            FlushLoop::Sleeping,
            FlushAction::Sleep,
        ),
        FlushLoop::Flushing.after(FlushEvent::FlushDone { stop_requested: true }) == (
            FlushLoop::Ended,
            FlushAction::Exit,
        ),
{
}

/// A status from 200 to 299 is confirmed after four seconds, 429 is tried again when
/// Discord allows it, any other or none is given up. The first attempt is made after 800
/// milliseconds.
pub proof fn law_registration(code: u16, app_id: nat, guild_id: nat, a: Seq<char>, b: Seq<char>)
    ensures
        step_after(None) == RegistrationStep::GiveUp,
        200 <= code <= 299 ==> step_after(Some(code)) == RegistrationStep::Confirm,
        code == 429 ==> step_after(Some(code)) == RegistrationStep::RetryLater,
        !(200 <= code <= 299) && code != 429 ==> step_after(Some(code))
            == RegistrationStep::Unexpected,
        pause_millis(None) == Some(800u64),
        pause_millis(Some(RegistrationStep::Confirm)) == Some(4000u64),
        pause_millis(Some(RegistrationStep::RetryLater)) is None,
        pause_millis(Some(RegistrationStep::GiveUp)) is None,
        pause_millis(Some(RegistrationStep::Unexpected)) is None,
        commands_address(app_id, guild_id) == "https://discord.com/api/v10/applications/"@
            + decimal(app_id) + "/guilds/"@ + decimal(guild_id) + "/commands"@,
        failure_text(a, b) == "Erreur dans `"@ + a + "` : "@ + b,
{
}

/// Where nothing was noted nothing is found.
pub proof fn law_no_recordings<R>(guild_id: u64)
    ensures
        recording_of(Map::<u64, R>::empty(), guild_id) is None,
{
}

/// Quotients are rounded toward zero; instants count nanoseconds, and reach from the year
/// -262143 to the year 262142.
pub proof fn law_instants(a: int, b: int, secs: i64, nanos: u32)
    requires
        b > 0,
    ensures
        a >= 0 ==> b * truncated_div(a, b) <= a < b * (truncated_div(a, b) + 1),
        truncated_div(-a, b) == -truncated_div(a, b),
        total_nanos(secs, nanos) == 1_000_000_000 * secs + nanos,
        is_instant(secs, nanos) <==> -8334601228800 <= secs <= 8210266876799 && nanos
            <= 999_999_999,
{
    if a >= 0 {
        vstd::arithmetic::div_mod::lemma_fundamental_div_mod(a, b);
        vstd::arithmetic::div_mod::lemma_mod_bound(a, b);
        vstd::arithmetic::mul::lemma_mul_is_distributive_add(b, a / b, 1);
    }
    if a == 0 {
        assert(0int / b == 0) by (nonlinear_arith)
            requires
                b > 0,
        ;
    }
}

} // verus!
