//! The push-to-talk voice pipeline: hotkey events drive the microphone
//! capture, the captured clip goes to a speech engine, and the outcome
//! becomes an event for the user interface.
//!
//! The capture, the engines and the channels are outside work; the
//! decisions between them are here.
use vstd::prelude::*;
use crate::asr::{asr_error_text, AsrError};
use crate::hotkey::HotkeyEvent;
use crate::text::{concat, str_equal, string_of};

verus! {

/// Events produced by the voice pipeline for the user interface.
#[derive(Debug, Clone)]
pub enum VoiceEvent {
    /// Recording started (hotkey pressed).
    ListeningStarted,
    /// Recording stopped, about to transcribe.
    ListeningStopped,
    /// Recognised text.
    TextReady(String),
    /// Pipeline error.
    Error(String),
}

/// `VoiceEvent` as plain values.
pub enum VoiceEventModel {
    ListeningStarted,
    ListeningStopped,
    TextReady(Seq<char>),
    Error(Seq<char>),
}

impl View for VoiceEvent {
    type V = VoiceEventModel;

    open spec fn view(&self) -> VoiceEventModel {
        match self {
            VoiceEvent::ListeningStarted => VoiceEventModel::ListeningStarted,
            VoiceEvent::ListeningStopped => VoiceEventModel::ListeningStopped,
            VoiceEvent::TextReady(t) => VoiceEventModel::TextReady(t@),
            VoiceEvent::Error(m) => VoiceEventModel::Error(m@),
        }
    }
}

/// The view of an optional event.
pub open spec fn opt_event(e: Option<VoiceEvent>) -> Option<VoiceEventModel> {
    match e {
        Some(v) => Some(v@),
        None => None,
    }
}

/// Commands dispatched from the hotkey listener or the tray menu to the
/// global voice handler.
pub enum VoiceCommand {
    RecordStart,
    RecordStop,
    TtsTrigger,
    SetAsrEngine(String),
    SetInjectMode(String),
    ToggleInjectMode,
    CycleAsrEngine,
}

/// What the pipeline asks of the microphone.
#[derive(Debug, Clone, Copy, PartialEq, Eq, Structural)]
pub enum CaptureAction {
    /// Nothing to do.
    Ignore,
    /// Start recording.
    Start,
    /// Stop recording and hand over the samples.
    Stop,
}

/// The push-to-talk state: whether a recording is under way.
pub struct PushToTalk {
    recording: bool,
}

/// The next recording flag, capture action and event for a hotkey event.
pub open spec fn ptt_step(recording: bool, e: HotkeyEvent) -> (bool, CaptureAction, Option<
    VoiceEventModel,
>) {
    match e {
        HotkeyEvent::RecordStart => if recording {
            (true, CaptureAction::Ignore, None)
        } else {
            (true, CaptureAction::Start, Some(VoiceEventModel::ListeningStarted))
        },
        HotkeyEvent::RecordStop => if recording {
            (false, CaptureAction::Stop, Some(VoiceEventModel::ListeningStopped))
        } else {
            (false, CaptureAction::Ignore, None)
        },
        _ => (recording, CaptureAction::Ignore, None),
    }
}

impl PushToTalk {
    /// Whether a recording is under way.
    pub closed spec fn spec_recording(&self) -> bool {
        self.recording
    }

    /// Idle: not recording.
    pub fn new() -> (p: Self)
        ensures
            !p.spec_recording(),
    {
        PushToTalk { recording: false }
    }

    /// Whether a recording is under way.
    pub fn is_recording(&self) -> (r: bool)
        ensures
            r == self.spec_recording(),
    {
        self.recording
    }

    /// Handles a hotkey event: a press starts a recording unless one is
    /// under way, a release stops the one under way; everything else is
    /// ignored.
    pub fn on_hotkey(&mut self, e: HotkeyEvent) -> (r: (CaptureAction, Option<VoiceEvent>))
        ensures
            (final(self).spec_recording(), r.0, opt_event(r.1)) == ptt_step(
                old(self).spec_recording(),
                e,
            ),
    {
        match e {
            HotkeyEvent::RecordStart => {
                if self.recording {
                    (CaptureAction::Ignore, None)
                } else {
                    self.recording = true;
                    (CaptureAction::Start, Some(VoiceEvent::ListeningStarted))
                }
            },
            HotkeyEvent::RecordStop => {
                if self.recording {
                    self.recording = false;
                    (CaptureAction::Stop, Some(VoiceEvent::ListeningStopped))
                } else {
                    (CaptureAction::Ignore, None)
                }
            },
            _ => (CaptureAction::Ignore, None),
        }
    }

    /// Handles the microphone's answer to a start: when it failed, the
    /// recording is abandoned and the user told.
    pub fn on_capture_started(&mut self, ok: bool) -> (r: Option<VoiceEvent>)
        ensures
            ok ==> r is None && final(self).spec_recording() == old(self).spec_recording(),
            !ok ==> opt_event(r) == Some(VoiceEventModel::Error("Mic start failed"@))
                && !final(self).spec_recording(),
    {
        if ok {
            None
        } else {
            self.recording = false;
            Some(VoiceEvent::Error(string_of("Mic start failed")))
        }
    }
}

/// What a stopped recording of `sample_count` samples leads to: an error
/// when nothing was captured, otherwise nothing yet (the clip goes on to be
/// transcribed).
pub fn captured_audio_event(sample_count: usize) -> (r: Option<VoiceEvent>)
    ensures
        sample_count == 0 ==> opt_event(r) == Some(VoiceEventModel::Error("No audio captured"@)),
        sample_count > 0 ==> r is None,
{
    if sample_count == 0 {
        Some(VoiceEvent::Error(string_of("No audio captured")))
    } else {
        None
    }
}

/// The event for the outcome of a transcription by the engine named
/// `engine` (`None`: no engine has that name).
pub open spec fn transcription_outcome(engine: Seq<char>, outcome: Option<Result<Seq<char>, AsrError>>) -> Option<
    VoiceEventModel,
> {
    match outcome {
        None => Some(VoiceEventModel::Error("ASR engine '"@ + engine + "' not found"@)),
        Some(Err(e)) => Some(VoiceEventModel::Error("ASR: "@ + asr_error_text(e))),
        Some(Ok(t)) => if t.len() == 0 {
            None
        } else {
            Some(VoiceEventModel::TextReady(t))
        },
    }
}

/// The view of a transcription outcome.
pub open spec fn outcome_view(o: Option<Result<String, AsrError>>) -> Option<Result<Seq<char>, AsrError>> {
    match o {
        None => None,
        Some(Ok(t)) => Some(Ok(t@)),
        Some(Err(e)) => Some(Err(e)),
    }
}

/// Turns the outcome of a transcription into the event for the user
/// interface: recognised text, nothing for empty text, or an error.
pub fn transcription_event(engine: &str, outcome: Option<Result<String, AsrError>>) -> (r: Option<VoiceEvent>)
    ensures
        opt_event(r) == transcription_outcome(engine@, outcome_view(outcome)),
{
    match outcome {
        None => {
            let mut m = concat("ASR engine '", engine);
            m.append("' not found");
            Some(VoiceEvent::Error(m))
        },
        Some(Err(e)) => {
            let msg = e.message();
            Some(VoiceEvent::Error(concat("ASR: ", msg.as_str())))
        },
        Some(Ok(t)) => {
            if t.as_str().unicode_len() == 0 {
                None
            } else {
                Some(VoiceEvent::TextReady(t))
            }
        },
    }
}

/// The state reported to the avatar: speaking wins over listening.
pub open spec fn voice_state_name(speaking: bool, listening: bool) -> Seq<char> {
    if speaking {
        "speaking"@
    } else if listening {
        "listening"@
    } else {
        "idle"@
    }
}

/// The avatar's voice state for the speaking and listening flags.
pub fn get_voice_state(speaking: bool, listening: bool) -> (s: String)
    ensures
        s@ == voice_state_name(speaking, listening),
{
    if speaking {
        string_of("speaking")
    } else if listening {
        string_of("listening")
    } else {
        string_of("idle")
    }
}

/// The characters of each string.
pub open spec fn strings_of(v: Seq<String>) -> Seq<Seq<char>> {
    v.map_values(|s: String| s@)
}

/// The engine after `current` in `names` (wrapping around), or the first
/// one when `current` is not among them; nothing when there are no engines.
pub open spec fn next_engine(names: Seq<Seq<char>>, current: Seq<char>) -> Option<Seq<char>> {
    if names.len() == 0 {
        None
    } else if exists|i: int| 0 <= i < names.len() && names[i] == current {
        let i = choose|i: int|
            0 <= i < names.len() && names[i] == current && forall|j: int|
                0 <= j < i ==> names[j] != current;
        Some(names[(i + 1) % (names.len() as int)])
    } else {
        Some(names[0])
    }
}

/// Picks the engine that follows `current` among `names` (see
/// `next_engine`).
pub fn cycle_asr_engine(names: &Vec<String>, current: &str) -> (r: Option<String>)
    ensures
        match r {
            Some(s) => next_engine(strings_of(names@), current@) == Some(s@),
            None => next_engine(strings_of(names@), current@) is None,
        },
{
    let ghost ns = strings_of(names@);
    let n = names.len();
    if n == 0 {
        return None;
    }
    let mut i: usize = 0;
    while i < n && !str_equal(names[i].as_str(), current)
        invariant
            n == names@.len() == ns.len(),
            ns == strings_of(names@),
            0 <= i <= n,
            forall|j: int| 0 <= j < i ==> ns[j] != current@,
        decreases n - i,
    {
        i = i + 1;
    }
    if i < n {
        proof {
            let w = choose|k: int|
                0 <= k < ns.len() && ns[k] == current@ && forall|j: int|
                    0 <= j < k ==> ns[j] != current@;
            assert(0 <= i < ns.len() && ns[i as int] == current@ && forall|j: int|
                0 <= j < i ==> ns[j] != current@);
            if w < i {
                assert(ns[w] == current@);
            } else if w > i {
                assert(ns[i as int] == current@);
            }
        }
        let next = (i + 1) % n;
        Some(names[next].clone())
    } else {
        Some(names[0].clone())
    }
}

/// The push-to-talk state and the events emitted after a sequence of
/// hotkey events, starting idle, when every capture starts.
pub open spec fn ptt_run(events: Seq<HotkeyEvent>) -> (bool, Seq<VoiceEventModel>)
    decreases events.len(),
{
    if events.len() == 0 {
        (false, Seq::empty())
    } else {
        let (rec, out) = ptt_run(events.drop_last());
        let (rec2, _, e) = ptt_step(rec, events.last());
        (
            rec2,
            match e {
                Some(v) => out.push(v),
                None => out,
            },
        )
    }
}

/// Listening-started and listening-stopped events strictly alternate,
/// beginning with a start.
pub open spec fn listening_alternates(out: Seq<VoiceEventModel>) -> bool {
    forall|i: int|
        0 <= i < out.len() ==> #[trigger] out[i] == if i % 2 == 0 {
            VoiceEventModel::ListeningStarted
        } else {
            VoiceEventModel::ListeningStopped
        }
}

/// Push-to-talk law: over any sequence of hotkey events (every capture
/// starting), the user interface is told "listening" and "stopped" in
/// strict alternation, beginning with "listening", and a recording is under
/// way exactly when the last of them was "listening". So no stop is
/// reported without a start, and a repeated press never starts twice.
pub proof fn lemma_listening_alternates(events: Seq<HotkeyEvent>)
    ensures
        listening_alternates(ptt_run(events).1),
        ptt_run(events).0 == (ptt_run(events).1.len() % 2 == 1),
    decreases events.len(),
{
    if events.len() > 0 {
        lemma_listening_alternates(events.drop_last());
    }
}

/// One hotkey event followed, when it asks the microphone to start, by the
/// microphone's answer `mic_ok`: a start that fails abandons the recording
/// and reports `Mic start failed` right after "listening" (as
/// `on_hotkey` then `on_capture_started` do).
pub open spec fn ptt_session_step(recording: bool, e: HotkeyEvent, mic_ok: bool) -> (bool, Seq<
    VoiceEventModel,
>) {
    let (rec, act, ev) = ptt_step(recording, e);
    let out = match ev {
        Some(v) => seq![v],
        None => Seq::<VoiceEventModel>::empty(),
    };
    if act == CaptureAction::Start && !mic_ok {
        (false, out.push(VoiceEventModel::Error("Mic start failed"@)))
    } else {
        (rec, out)
    }
}

/// The push-to-talk state and the events emitted after a sequence of
/// hotkey events, each with the microphone's answer should it start a
/// capture, starting idle.
pub open spec fn ptt_session_run(inputs: Seq<(HotkeyEvent, bool)>) -> (bool, Seq<VoiceEventModel>)
    decreases inputs.len(),
{
    if inputs.len() == 0 {
        (false, Seq::empty())
    } else {
        let (rec, out) = ptt_session_run(inputs.drop_last());
        let (rec2, more) = ptt_session_step(rec, inputs.last().0, inputs.last().1);
        (rec2, out + more)
    }
}

/// An event that ends a period of listening: the stop, or the report that
/// the microphone failed to start.
pub open spec fn ends_listening(v: VoiceEventModel) -> bool {
    v == VoiceEventModel::ListeningStopped || v == VoiceEventModel::Error("Mic start failed"@)
}

/// "Listening" alternates with the event that ends it, beginning with
/// "listening".
pub open spec fn listening_periods(out: Seq<VoiceEventModel>) -> bool {
    forall|i: int|
        0 <= i < out.len() ==> if i % 2 == 0 {
            #[trigger] out[i] == VoiceEventModel::ListeningStarted
        } else {
            ends_listening(out[i])
        }
}

/// Push-to-talk law, failed starts included: over any sequence of hotkey
/// events and microphone answers, the user interface is told "listening"
/// and then, before the next "listening", either "stopped" or that the
/// microphone failed to start; and a recording is under way exactly when
/// the last of these events was "listening".
pub proof fn lemma_listening_periods(inputs: Seq<(HotkeyEvent, bool)>)
    ensures
        listening_periods(ptt_session_run(inputs).1),
        ptt_session_run(inputs).0 == (ptt_session_run(inputs).1.len() % 2 == 1),
    decreases inputs.len(),
{
    if inputs.len() > 0 {
        lemma_listening_periods(inputs.drop_last());
        let (rec, out) = ptt_session_run(inputs.drop_last());
        let (rec2, more) = ptt_session_step(rec, inputs.last().0, inputs.last().1);
        let all = out + more;
        assert forall|i: int| 0 <= i < all.len() implies if i % 2 == 0 {
            #[trigger] all[i] == VoiceEventModel::ListeningStarted
        } else {
            ends_listening(all[i])
        } by {
            if i < out.len() {
                assert(all[i] == out[i]);
            }
        }
    }
}

/// Cycling law: the engine after the first occurrence of `current` at
/// index `i` is the one at index `i + 1`, wrapping to the first after the
/// last; an unknown engine goes to the first; with no engines there is none.
pub proof fn lemma_next_engine_position(names: Seq<Seq<char>>, current: Seq<char>, i: int)
    requires
        0 <= i < names.len(),
        names[i] == current,
        forall|j: int| 0 <= j < i ==> names[j] != current,
    ensures
        next_engine(names, current) == Some(
            if i + 1 < names.len() {
                names[i + 1]
            } else {
                names[0]
            },
        ),
{
    let n = names.len() as int;
    assert(exists|k: int| 0 <= k < n && names[k] == current);
    let c = choose|k: int|
        0 <= k < n && names[k] == current && forall|j: int| 0 <= j < k ==> names[j] != current;
    assert(0 <= i < n && names[i] == current && forall|j: int| 0 <= j < i ==> names[j] != current);
    if c < i {
        assert(names[c] == current);
    } else if c > i {
        assert(names[i] == current);
    }
    if i + 1 < n {
        vstd::arithmetic::div_mod::lemma_small_mod((i + 1) as nat, n as nat);
    } else {
        vstd::arithmetic::div_mod::lemma_mod_self_0(n);
    }
}

/// Cycling law for engines that are not among the names, and for no names.
pub proof fn lemma_next_engine_outside(names: Seq<Seq<char>>, current: Seq<char>)
    requires
        forall|j: int| 0 <= j < names.len() ==> names[j] != current,
    ensures
        names.len() == 0 ==> next_engine(names, current) is None,
        names.len() > 0 ==> next_engine(names, current) == Some(names[0]),
{
}

/// The engine reached from `start` after cycling `k` times.
pub open spec fn cycled(names: Seq<Seq<char>>, start: Seq<char>, k: nat) -> Seq<char>
    decreases k,
{
    if k == 0 {
        start
    } else {
        match next_engine(names, cycled(names, start, (k - 1) as nat)) {
            Some(e) => e,
            None => start,
        }
    }
}

/// Cycling visits every engine: among distinct engine names, cycling `k`
/// times from the first one reaches the one at index `k mod n`, so `n`
/// cycles pass through each of the `n` engines once and come back.
pub proof fn lemma_cycling_visits_all(names: Seq<Seq<char>>, k: nat)
    requires
        names.len() > 0,
        forall|a: int, b: int| 0 <= a < b < names.len() ==> names[a] != names[b],
    ensures
        cycled(names, names[0], k) == names[k as int % names.len() as int],
    decreases k,
{
    let n = names.len() as int;
    if k > 0 {
        lemma_cycling_visits_all(names, (k - 1) as nat);
        let i = (k - 1) as int % n;
        assert(0 <= i < n);
        assert forall|j: int| 0 <= j < i implies names[j] != names[i] by {}
        lemma_next_engine_position(names, names[i], i);
        let prev = cycled(names, names[0], (k - 1) as nat);
        assert(prev == names[i]);
        assert(cycled(names, names[0], k) == names[if i + 1 < n { i + 1 } else { 0 }]);
        if n == 1 {
            assert(k as int % 1 == 0);
        } else {
            vstd::arithmetic::div_mod::lemma_add_mod_noop((k - 1) as int, 1, n);
            vstd::arithmetic::div_mod::lemma_small_mod(1, n as nat);
            assert((k - 1) as int + 1 == k as int);
            if i + 1 < n {
                vstd::arithmetic::div_mod::lemma_small_mod((i + 1) as nat, n as nat);
            } else {
                vstd::arithmetic::div_mod::lemma_mod_self_0(n);
            }
        }
    } else {
        vstd::arithmetic::div_mod::lemma_small_mod(0, n as nat);
    }
}

} // verus!
