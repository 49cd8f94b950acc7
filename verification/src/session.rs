//! The edit synchronization machine: the decisions of one editing session
//! for one card.
//!
//! A session owns an in-memory copy of the card, the outcome of the most
//! recent remote update attempt, and a phase.  The surrounding program
//! spawns the editor, sleeps, reads the scratch document, performs the
//! remote call and prompts the user; every decision in between is taken
//! here.  On each poll, a freshly read document is trimmed of trailing
//! whitespace and parsed; an unparsable document is skipped.  A parsed
//! document triggers a remote update exactly when no attempt has been made
//! yet, or the previous attempt failed, or a parsed field differs from the
//! in-memory copy.  After the editor exits, a failed last attempt leads to
//! a prompt and, if the user agrees, a fresh editor session; otherwise the
//! session is done.

use crate::bytes::bytes_eq;
use crate::card::{Card, CardView};
use crate::codec::{parse_spec, trim_end, trim_end_spec, CardContents, ContentsView};
use vstd::prelude::*;

verus! {

/// The result classification of the most recent remote update call within
/// a session.
#[derive(Clone, Copy)]
pub enum SyncOutcome {
    NotYetAttempted,
    Success,
    Failure,
}

/// Where the session stands.
#[derive(Clone, Copy)]
pub enum SessionPhase {
    /// The editor is open and the scratch document is being polled.
    Polling,
    /// A remote update was triggered and its result is awaited.
    Submitting,
    /// The editor exited after a failed update; the user must acknowledge
    /// before the editor is reopened.
    AwaitingRetryAck,
    /// The session is over.
    Done,
}

/// What the caller must do after handing a poll to the session.
#[derive(Clone, Copy)]
pub enum PollAction {
    /// The document did not parse; keep polling.
    Skip,
    /// The document parsed but nothing needs to be pushed.
    NoUpdate,
    /// Push the session's card to the remote service and report the result.
    Submit,
}

/// What the caller must do after reporting that the editor exited.
#[derive(Clone, Copy)]
pub enum ExitAction {
    /// End the session; no prompt is shown.
    Finish,
    /// Surface the error and ask the user whether to reopen the editor.
    PromptRetry,
}

/// The mathematical value of an [`EditSession`].
pub struct SessionView {
    pub card: CardView,
    pub outcome: SyncOutcome,
    pub phase: SessionPhase,
}

/// One editing session for one card.
pub struct EditSession {
    /// The in-memory copy of the card, updated only from parsed scratch
    /// document content.
    pub card: Card,
    pub outcome: SyncOutcome,
    pub phase: SessionPhase,
}

impl View for EditSession {
    type V = SessionView;

    open spec fn view(&self) -> SessionView {
        SessionView { card: self.card@, outcome: self.outcome, phase: self.phase }
    }
}

/// A fresh session: the baseline copy of the card, no attempt yet.
pub open spec fn spec_begin(card: CardView) -> SessionView {
    SessionView { card, outcome: SyncOutcome::NotYetAttempted, phase: SessionPhase::Polling }
}

/// Whether parsed contents trigger a remote update: no attempt yet, or the
/// previous attempt failed, or a field differs from the in-memory copy.
pub open spec fn spec_trigger(s: SessionView, c: ContentsView) -> bool {
    (s.outcome is NotYetAttempted) || (s.outcome is Failure) || s.card.name != c.name
        || s.card.desc != c.desc
}

/// One poll of the scratch document: trim, parse, and decide.
pub open spec fn spec_on_poll(s: SessionView, raw: Seq<u8>) -> (SessionView, PollAction) {
    match parse_spec(trim_end_spec(raw)) {
        None => (s, PollAction::Skip),
        Some(c) => if spec_trigger(s, c) {
            (
                SessionView {
                    card: CardView { name: c.name, desc: c.desc, ..s.card },
                    outcome: s.outcome,
                    phase: SessionPhase::Submitting,
                },
                PollAction::Submit,
            )
        } else {
            (s, PollAction::NoUpdate)
        },
    }
}

/// Recording the outcome of a triggered remote update.
pub open spec fn spec_on_update_result(s: SessionView, ok: bool) -> SessionView {
    SessionView {
        outcome: if ok {
            SyncOutcome::Success
        } else {
            SyncOutcome::Failure
        },
        phase: SessionPhase::Polling,
        ..s
    }
}

/// The decision taken when the editor process has exited.
pub open spec fn spec_on_editor_exit(s: SessionView) -> (SessionView, ExitAction) {
    if s.outcome is Failure {
        (SessionView { phase: SessionPhase::AwaitingRetryAck, ..s }, ExitAction::PromptRetry)
    } else {
        (SessionView { phase: SessionPhase::Done, ..s }, ExitAction::Finish)
    }
}

/// The user's answer to the retry prompt: reopen the editor, or give up.
pub open spec fn spec_on_retry_decision(s: SessionView, retry: bool) -> SessionView {
    SessionView {
        phase: if retry {
            SessionPhase::Polling
        } else {
            SessionPhase::Done
        },
        ..s
    }
}

impl EditSession {
    /// Open a session on `card`.  The caller seeds the scratch document
    /// with the card's rendered form and spawns the editor.
    pub fn begin(card: Card) -> (s: EditSession)
        ensures
            s@ == spec_begin(card@),
    {
        EditSession {
            card,
            outcome: SyncOutcome::NotYetAttempted,
            phase: SessionPhase::Polling,
        }
    }

    /// Hand the session one freshly read scratch document.  On `Submit`
    /// the in-memory copy has taken the parsed fields and the caller must
    /// push the card, then report through [`Self::on_update_result`].
    pub fn on_poll(&mut self, raw: &Vec<u8>) -> (act: PollAction)
        requires
            (old(self)@.phase is Polling),
        ensures
            (final(self)@, act) == spec_on_poll(old(self)@, raw@),
    {
        let trimmed = trim_end(raw);
        match CardContents::parse(&trimmed) {
            Err(_) => PollAction::Skip,
            Ok(contents) => {
                let trigger = match self.outcome {
                    SyncOutcome::NotYetAttempted => true,
                    SyncOutcome::Failure => true,
                    SyncOutcome::Success => !bytes_eq(&self.card.name, &contents.name)
                        || !bytes_eq(&self.card.desc, &contents.desc),
                };
                if trigger {
                    self.card.name = contents.name;
                    self.card.desc = contents.desc;
                    self.phase = SessionPhase::Submitting;
                    PollAction::Submit
                } else {
                    PollAction::NoUpdate
                }
            },
        }
    }

    /// Record whether the triggered remote update succeeded.
    pub fn on_update_result(&mut self, ok: bool)
        requires
            (old(self)@.phase is Submitting),
        ensures
            final(self)@ == spec_on_update_result(old(self)@, ok),
    {
        self.outcome = if ok {
            SyncOutcome::Success
        } else {
            SyncOutcome::Failure
        };
        self.phase = SessionPhase::Polling;
    }

    /// The editor process has exited: decide whether the session is over
    /// or the user must be prompted to retry a failed update.
    pub fn on_editor_exit(&mut self) -> (act: ExitAction)
        requires
            (old(self)@.phase is Polling),
        ensures
            (final(self)@, act) == spec_on_editor_exit(old(self)@),
    {
        match self.outcome {
            SyncOutcome::Failure => {
                self.phase = SessionPhase::AwaitingRetryAck;
                ExitAction::PromptRetry
            },
            SyncOutcome::NotYetAttempted => {
                self.phase = SessionPhase::Done;
                ExitAction::Finish
            },
            SyncOutcome::Success => {
                self.phase = SessionPhase::Done;
                ExitAction::Finish
            },
        }
    }

    /// The user's answer to the retry prompt.  On `true` the caller
    /// reopens the editor on the unchanged scratch document and polling
    /// resumes; on `false` the session ends.
    pub fn on_retry_decision(&mut self, retry: bool)
        requires
            (old(self)@.phase is AwaitingRetryAck),
        ensures
            final(self)@ == spec_on_retry_decision(old(self)@, retry),
    {
        self.phase = if retry {
            SessionPhase::Polling
        } else {
            SessionPhase::Done
        };
    }
}

// ---------------------------------------------------------------------------
// The session laws: what a whole run of polls does, proved over the
// transition functions above.
// ---------------------------------------------------------------------------

/// One full poll round in which a triggered update succeeds.
pub open spec fn poll_round(s: SessionView, raw: Seq<u8>) -> SessionView {
    let r = spec_on_poll(s, raw);
    if r.1 is Submit {
        spec_on_update_result(r.0, true)
    } else {
        r.0
    }
}

/// The session after a sequence of polls whose triggered updates all
/// succeed.
pub open spec fn run_polls(s: SessionView, texts: Seq<Seq<u8>>) -> SessionView
    decreases texts.len(),
{
    if texts.len() == 0 {
        s
    } else {
        run_polls(poll_round(s, texts[0]), texts.drop_first())
    }
}

/// How many remote updates a sequence of polls triggers, when every
/// triggered update succeeds.
pub open spec fn submit_count(s: SessionView, texts: Seq<Seq<u8>>) -> nat
    decreases texts.len(),
{
    if texts.len() == 0 {
        0
    } else {
        (if spec_on_poll(s, texts[0]).1 is Submit {
            1nat
        } else {
            0nat
        }) + submit_count(poll_round(s, texts[0]), texts.drop_first())
    }
}

/// Every document in the sequence parses once trimmed.
pub open spec fn all_polls_parse(texts: Seq<Seq<u8>>) -> bool {
    forall|i: int| 0 <= i < texts.len() ==> (parse_spec(trim_end_spec(#[trigger] texts[i])) is Some)
}

/// The fields observed in a parsable document.
pub open spec fn observed_contents(raw: Seq<u8>) -> ContentsView
    recommends
        parse_spec(trim_end_spec(raw)) is Some,
{
    parse_spec(trim_end_spec(raw))->Some_0
}

/// The number of polls whose observed state differs from the last recorded
/// one, counting the first poll as differing when `forced` (no attempt yet,
/// or the previous attempt failed).
pub open spec fn distinct_observed_states(
    name: Seq<u8>,
    desc: Seq<u8>,
    forced: bool,
    texts: Seq<Seq<u8>>,
) -> nat
    decreases texts.len(),
{
    if texts.len() == 0 {
        0
    } else {
        let c = observed_contents(texts[0]);
        if forced || c.name != name || c.desc != desc {
            1 + distinct_observed_states(c.name, c.desc, false, texts.drop_first())
        } else {
            distinct_observed_states(name, desc, false, texts.drop_first())
        }
    }
}

/// Over any sequence of parsable polls whose updates succeed, the number
/// of triggered remote updates equals the number of observed states that
/// differ from the last recorded in-memory state, plus one forced call
/// when no attempt had been made yet or the previous attempt had failed.
/// In particular, a byte-identical document after a success never triggers
/// a second call.
pub proof fn lemma_update_calls_count_distinct_states(s: SessionView, texts: Seq<Seq<u8>>)
    requires
        (s.phase is Polling),
        all_polls_parse(texts),
    ensures
        submit_count(s, texts) == distinct_observed_states(
            s.card.name,
            s.card.desc,
            !(s.outcome is Success),
            texts,
        ),
    decreases texts.len(),
{
    if texts.len() == 0 {
    } else {
        assert(parse_spec(trim_end_spec(texts[0])) is Some);
        let c = observed_contents(texts[0]);
        assert forall|i: int| 0 <= i < texts.drop_first().len() implies (parse_spec(
            trim_end_spec(#[trigger] texts.drop_first()[i]),
        ) is Some) by {
            assert(texts.drop_first()[i] == texts[i + 1]);
        }
        let s2 = poll_round(s, texts[0]);
        if spec_trigger(s, c) {
            assert(s2.card.name == c.name && s2.card.desc == c.desc);
            assert(s2.outcome is Success);
            lemma_update_calls_count_distinct_states(s2, texts.drop_first());
        } else {
            assert(s2 == s);
            lemma_update_calls_count_distinct_states(s2, texts.drop_first());
        }
    }
}

/// No update is sent twice in a row for byte-identical content after a
/// success: a poll that observes exactly the in-memory fields while the
/// previous attempt succeeded changes nothing and triggers nothing.
pub proof fn lemma_no_second_update_for_identical_content(s: SessionView, raw: Seq<u8>)
    requires
        (s.phase is Polling),
        (s.outcome is Success),
        parse_spec(trim_end_spec(raw)) == Some(
            ContentsView { name: s.card.name, desc: s.card.desc },
        ),
    ensures
        (spec_on_poll(s, raw).1 is NoUpdate),
        spec_on_poll(s, raw).0 == s,
{
}

/// A session whose scratch document is never touched and whose editor is
/// closed before any poll triggers no update, shows no prompt, and ends
/// done with the card unchanged.
pub proof fn lemma_untouched_session_ends_clean(card: CardView)
    ensures
        (spec_on_editor_exit(spec_begin(card)).1 is Finish),
        (spec_on_editor_exit(spec_begin(card)).0.phase is Done),
        spec_on_editor_exit(spec_begin(card)).0.card == card,
        submit_count(spec_begin(card), Seq::<Seq<u8>>::empty()) == 0,
{
}

/// After a failed update, closing the editor prompts the user before any
/// second editor session: the session awaits the acknowledgment, reopens
/// only on an affirmative answer, and declining ends it with no further
/// transition available.
pub proof fn lemma_failure_prompts_before_reopen(s: SessionView)
    requires
        (s.phase is Polling),
        (s.outcome is Failure),
    ensures
        (spec_on_editor_exit(s).1 is PromptRetry),
        (spec_on_editor_exit(s).0.phase is AwaitingRetryAck),
        (spec_on_retry_decision(spec_on_editor_exit(s).0, false).phase is Done),
        spec_on_retry_decision(spec_on_editor_exit(s).0, false).card == s.card,
        (spec_on_retry_decision(spec_on_editor_exit(s).0, true).phase is Polling),
{
}

/// While the scratch document stays unparsable no update is issued and the
/// session does not move; the first parsable poll that observes a
/// triggering state issues exactly one update.
pub proof fn lemma_unparsable_interval(s: SessionView, bad: Seq<Seq<u8>>, good: Seq<u8>)
    requires
        (s.phase is Polling),
        forall|i: int| 0 <= i < bad.len() ==> (parse_spec(trim_end_spec(#[trigger] bad[i])) is None),
        (parse_spec(trim_end_spec(good)) is Some),
        spec_trigger(s, observed_contents(good)),
    ensures
        run_polls(s, bad) == s,
        submit_count(s, bad) == 0,
        submit_count(s, bad.push(good)) == 1,
    decreases bad.len(),
{
    if bad.len() == 0 {
        assert(bad.push(good)[0] == good);
        assert(bad.push(good).drop_first() =~= Seq::<Seq<u8>>::empty());
        assert(spec_on_poll(s, good).1 is Submit);
        assert(submit_count(s, bad.push(good)) == 1nat + submit_count(
            poll_round(s, good),
            Seq::<Seq<u8>>::empty(),
        ));
        assert(submit_count(poll_round(s, good), Seq::<Seq<u8>>::empty()) == 0);
    } else {
        assert(parse_spec(trim_end_spec(bad[0])) is None);
        assert(poll_round(s, bad[0]) == s);
        assert forall|i: int| 0 <= i < bad.drop_first().len() implies (parse_spec(
            trim_end_spec(#[trigger] bad.drop_first()[i]),
        ) is None) by {
            assert(bad.drop_first()[i] == bad[i + 1]);
        }
        lemma_unparsable_interval(s, bad.drop_first(), good);
        assert(bad.push(good)[0] == bad[0]);
        assert(bad.push(good).drop_first() =~= bad.drop_first().push(good));
        assert(spec_on_poll(s, bad[0]).1 is Skip);
        assert(submit_count(s, bad.push(good)) == submit_count(s, bad.drop_first().push(good)));
    }
}

} // verus!
