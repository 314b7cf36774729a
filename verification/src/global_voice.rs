//! Settings of the global voice hotkeys that the tray menu and the hotkeys
//! change at run time: the active speech engine and how recognised text is
//! injected into other applications.
use vstd::prelude::*;
use crate::config::GlobalVoiceConfig;
use crate::text::{str_equal, string_of};
use crate::voice::{cycle_asr_engine, next_engine, strings_of, VoiceCommand};

verus! {

/// How recognised text reaches the focused application.
#[derive(Debug, Clone, Copy, PartialEq, Eq, Structural)]
pub enum InjectMode {
    /// Typed key by key.
    Keyboard,
    /// Pasted through the clipboard.
    Clipboard,
}

/// The mode a configured name stands for: `clipboard`, or else keyboard.
pub open spec fn inject_mode_named(s: Seq<char>) -> InjectMode {
    if s == "clipboard"@ {
        InjectMode::Clipboard
    } else {
        InjectMode::Keyboard
    }
}

/// The configured name of a mode.
pub open spec fn inject_mode_name(m: InjectMode) -> Seq<char> {
    match m {
        InjectMode::Keyboard => "keyboard"@,
        InjectMode::Clipboard => "clipboard"@,
    }
}

/// The other mode.
pub open spec fn toggled(m: InjectMode) -> InjectMode {
    match m {
        InjectMode::Keyboard => InjectMode::Clipboard,
        InjectMode::Clipboard => InjectMode::Keyboard,
    }
}

impl InjectMode {
    /// The mode a configured name stands for.
    pub fn from_name(s: &str) -> (m: InjectMode)
        ensures
            m == inject_mode_named(s@),
    {
        if str_equal(s, "clipboard") {
            InjectMode::Clipboard
        } else {
            InjectMode::Keyboard
        }
    }

    /// The other mode.
    pub fn toggle(self) -> (m: InjectMode)
        ensures
            m == toggled(self),
    {
        match self {
            InjectMode::Keyboard => InjectMode::Clipboard,
            InjectMode::Clipboard => InjectMode::Keyboard,
        }
    }

    /// The configured name of the mode.
    pub fn as_str(&self) -> (s: &'static str)
        ensures
            s@ == inject_mode_name(*self),
    {
        match self {
            InjectMode::Keyboard => "keyboard",
            InjectMode::Clipboard => "clipboard",
        }
    }
}

/// The live settings of the global voice handler: the active engine and
/// inject mode, and the configuration they are saved in.
pub struct VoiceSettings {
    pub asr_engine: String,
    pub inject_mode: InjectMode,
    pub config: GlobalVoiceConfig,
}

/// Whether two configurations agree on everything but the ASR engine.
pub open spec fn same_but_engine(a: GlobalVoiceConfig, b: GlobalVoiceConfig) -> bool {
    &&& a.record_hotkey@ == b.record_hotkey@
    &&& a.tts_hotkey@ == b.tts_hotkey@
    &&& a.inject_mode_switch_hotkey@ == b.inject_mode_switch_hotkey@
    &&& a.engine_switch_hotkey@ == b.engine_switch_hotkey@
    &&& a.inject_mode@ == b.inject_mode@
    &&& a.tts_engine@ == b.tts_engine@
}

/// Whether two configurations agree on everything but the inject mode.
pub open spec fn same_but_inject(a: GlobalVoiceConfig, b: GlobalVoiceConfig) -> bool {
    &&& a.record_hotkey@ == b.record_hotkey@
    &&& a.tts_hotkey@ == b.tts_hotkey@
    &&& a.inject_mode_switch_hotkey@ == b.inject_mode_switch_hotkey@
    &&& a.engine_switch_hotkey@ == b.engine_switch_hotkey@
    &&& a.asr_engine@ == b.asr_engine@
    &&& a.tts_engine@ == b.tts_engine@
}

/// Applies a settings command of the global voice handler: choosing,
/// cycling through the available engines (`engine_names`), setting or
/// toggling the inject mode. Returns whether the configuration changed and
/// is to be saved; the other commands change nothing here.
pub fn apply_voice_setting(cmd: VoiceCommand, engine_names: &Vec<String>, s: &mut VoiceSettings) -> (save: bool)
    ensures
        match cmd {
            VoiceCommand::SetAsrEngine(n) => save && final(s).asr_engine@ == n@
                && final(s).config.asr_engine@ == n@ && final(s).inject_mode == old(
                s,
            ).inject_mode && same_but_engine(final(s).config, old(s).config),
            VoiceCommand::CycleAsrEngine => match next_engine(
                strings_of(engine_names@),
                old(s).asr_engine@,
            ) {
                Some(n) => save && final(s).asr_engine@ == n && final(s).config.asr_engine@ == n
                    && final(s).inject_mode == old(s).inject_mode && same_but_engine(
                    final(s).config,
                    old(s).config,
                ),
                None => !save && *final(s) == *old(s),
            },
            VoiceCommand::SetInjectMode(m) => save && final(s).inject_mode == inject_mode_named(
                m@,
            ) && final(s).config.inject_mode@ == m@ && final(s).asr_engine == old(s).asr_engine
                && same_but_inject(final(s).config, old(s).config),
            VoiceCommand::ToggleInjectMode => save && final(s).inject_mode == toggled(
                old(s).inject_mode,
            ) && final(s).config.inject_mode@ == inject_mode_name(toggled(old(s).inject_mode))
                && final(s).asr_engine == old(s).asr_engine && same_but_inject(
                final(s).config,
                old(s).config,
            ),
            _ => !save && *final(s) == *old(s),
        },
{
    match cmd {
        VoiceCommand::SetAsrEngine(name) => {
            s.config.asr_engine = string_of(name.as_str());
            s.asr_engine = name;
            true
        },
        VoiceCommand::CycleAsrEngine => {
            match cycle_asr_engine(engine_names, s.asr_engine.as_str()) {
                Some(next) => {
                    s.config.asr_engine = string_of(next.as_str());
                    s.asr_engine = next;
                    true
                },
                None => false,
            }
        },
        VoiceCommand::SetInjectMode(mode) => {
            s.inject_mode = InjectMode::from_name(mode.as_str());
            s.config.inject_mode = mode;
            true
        },
        VoiceCommand::ToggleInjectMode => {
            let m = s.inject_mode.toggle();
            s.inject_mode = m;
            s.config.inject_mode = string_of(m.as_str());
            true
        },
        _ => false,
    }
}

/// Inject-mode law: toggling twice gives back the mode, and a mode saved
/// by its name is read back as the same mode.
pub proof fn lemma_inject_mode_round_trip(m: InjectMode)
    ensures
        toggled(toggled(m)) == m,
        inject_mode_named(inject_mode_name(m)) == m,
{
    reveal_strlit("keyboard");
    reveal_strlit("clipboard");
    assert("keyboard"@ != "clipboard"@) by {
        assert("keyboard"@[0] != "clipboard"@[0]);
    }
}

} // verus!
