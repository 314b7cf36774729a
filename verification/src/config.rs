//! Configuration defaults, the global-voice settings and the location of
//! the configuration on disk (`~/.companion/config.json`).
use vstd::prelude::*;
use std::path::PathBuf;
use crate::text::string_of;

verus! {

/// `std::path::PathBuf`, carried through the library as an opaque value.
#[verifier::external_type_specification]
#[verifier::external_body]
pub struct ExPathBuf(std::path::PathBuf);

/// `std::io::Error`, carried inside `ConfigError`.
#[verifier::external_type_specification]
#[verifier::external_body]
pub struct ExIoError(std::io::Error);

/// `serde_json::Error`, carried inside `ConfigError`.
#[verifier::external_type_specification]
#[verifier::external_body]
pub struct ExJsonError(serde_json::Error);

/// The path `Path::join` makes of `base` and the relative component `part`.
pub uninterp spec fn spec_path_join(base: PathBuf, part: Seq<char>) -> PathBuf;

/// The path `PathBuf::from` makes of the string `s`.
pub uninterp spec fn spec_path_from(s: Seq<char>) -> PathBuf;

/// `Path::join`: `base` extended by the relative component `part`. The
/// contract only names the result; which path that is depends on the
/// platform's separator and is left to std.
#[verifier::external_body]
fn path_join(base: &PathBuf, part: &str) -> (r: PathBuf)
    ensures
        r == spec_path_join(*base, part@),
{
    base.join(part)
}

/// `PathBuf::from` on a string; the contract only names the result.
#[verifier::external_body]
fn path_from(s: &str) -> (r: PathBuf)
    ensures
        r == spec_path_from(s@),
{
    PathBuf::from(s)
}

/// `PathBuf::clone`: a copy of the same path.
#[verifier::external_body]
fn clone_path(p: &PathBuf) -> (r: PathBuf)
    ensures
        r == *p,
{
    p.clone()
}

/// `dirs::home_dir`: the user's home directory, when the environment and
/// the platform name one. Nothing is promised of the result: it depends on
/// the machine.
#[verifier::external_body]
fn home_dir() -> (r: Option<PathBuf>) {
    dirs::home_dir()
}

/// Default hotkey for push-to-talk recording.
pub fn default_global_record_hotkey() -> (s: String)
    ensures
        s@ == "Alt+`"@,
{
    string_of("Alt+`")
}

/// Default hotkey for reading the selection aloud.
pub fn default_global_tts_hotkey() -> (s: String)
    ensures
        s@ == "Alt+T"@,
{
    string_of("Alt+T")
}

/// Default hotkey for switching the inject mode.
pub fn default_inject_switch_hotkey() -> (s: String)
    ensures
        s@ == "Alt+Shift+V"@,
{
    string_of("Alt+Shift+V")
}

/// Default hotkey for switching the ASR engine.
pub fn default_engine_switch_hotkey() -> (s: String)
    ensures
        s@ == "Alt+Shift+E"@,
{
    string_of("Alt+Shift+E")
}

/// Default inject mode.
pub fn default_inject_mode() -> (s: String)
    ensures
        s@ == "keyboard"@,
{
    string_of("keyboard")
}

/// Default ASR engine of global recording.
pub fn default_global_asr_engine() -> (s: String)
    ensures
        s@ == "mimo"@,
{
    string_of("mimo")
}

/// Default TTS engine of the global reader.
pub fn default_global_tts_engine() -> (s: String)
    ensures
        s@ == "mimo-tts"@,
{
    string_of("mimo-tts")
}

/// Default LLM provider.
pub fn default_llm() -> (s: String)
    ensures
        s@ == "siliconflow"@,
{
    string_of("siliconflow")
}

/// Default ASR provider.
pub fn default_asr() -> (s: String)
    ensures
        s@ == "local"@,
{
    string_of("local")
}

/// Default TTS provider.
pub fn default_tts() -> (s: String)
    ensures
        s@ == "local"@,
{
    string_of("local")
}

/// Default voice input mode (push-to-talk).
pub fn default_voice_mode() -> (s: String)
    ensures
        s@ == "ptt"@,
{
    string_of("ptt")
}

/// Default TTS voice.
pub fn default_tts_voice() -> (s: String)
    ensures
        s@ == "\u{8309}\u{8389}"@,
{
    string_of("\u{8309}\u{8389}")
}

/// Default display name of the user.
pub fn default_user_name() -> (s: String)
    ensures
        s@ == "User"@,
{
    string_of("User")
}

/// Default conversation style template.
pub fn default_style() -> (s: String)
    ensures
        s@ == "professional"@,
{
    string_of("professional")
}

/// The sandbox directory for a home directory: `<home>/.companion/sandbox`,
/// or `./.companion/sandbox` when there is none.
pub open spec fn sandbox_for(home: Option<PathBuf>) -> PathBuf {
    match home {
        Some(h) => spec_path_join(spec_path_join(h, ".companion"@), "sandbox"@),
        None => spec_path_from("./.companion/sandbox"@),
    }
}

/// The sandbox directory for a home directory (see `sandbox_for`).
pub fn sandbox_path_for(home: Option<PathBuf>) -> (p: PathBuf)
    ensures
        p == sandbox_for(home),
{
    match home {
        Some(h) => {
            let root = path_join(&h, ".companion");
            path_join(&root, "sandbox")
        },
        None => path_from("./.companion/sandbox"),
    }
}

/// The default sandbox directory, under the user's home directory when
/// the machine names one.
pub fn default_sandbox_path() -> (p: PathBuf)
    ensures
        exists|h: Option<PathBuf>| p == sandbox_for(h),
{
    sandbox_path_for(home_dir())
}

/// Configuration of the global voice hotkeys, inject mode and engines.
#[derive(Debug, Clone)]
pub struct GlobalVoiceConfig {
    /// Hotkey for recording (e.g. "Alt+`").
    pub record_hotkey: String,
    /// Hotkey for TTS (e.g. "Alt+T").
    pub tts_hotkey: String,
    /// Hotkey to switch inject mode (e.g. "Alt+Shift+V").
    pub inject_mode_switch_hotkey: String,
    /// Hotkey to switch ASR engine (e.g. "Alt+Shift+E").
    pub engine_switch_hotkey: String,
    /// Inject mode: "keyboard" | "clipboard".
    pub inject_mode: String,
    /// ASR engine for global recording.
    pub asr_engine: String,
    /// TTS engine for global TTS.
    pub tts_engine: String,
}

impl Default for GlobalVoiceConfig {
    fn default() -> (c: Self)
        ensures
            c.record_hotkey@ == "Alt+`"@,
            c.tts_hotkey@ == "Alt+T"@,
            c.inject_mode_switch_hotkey@ == "Alt+Shift+V"@,
            c.engine_switch_hotkey@ == "Alt+Shift+E"@,
            c.inject_mode@ == "keyboard"@,
            c.asr_engine@ == "mimo"@,
            c.tts_engine@ == "mimo-tts"@,
    {
        GlobalVoiceConfig {
            record_hotkey: default_global_record_hotkey(),
            tts_hotkey: default_global_tts_hotkey(),
            inject_mode_switch_hotkey: default_inject_switch_hotkey(),
            engine_switch_hotkey: default_engine_switch_hotkey(),
            inject_mode: default_inject_mode(),
            asr_engine: default_global_asr_engine(),
            tts_engine: default_global_tts_engine(),
        }
    }
}

/// Errors from the configuration system.
#[derive(Debug)]
pub enum ConfigError {
    NoHomeDir,
    Io(std::io::Error),
    Json(serde_json::Error),
}

/// Where the configuration lives: its file and the data root beside it.
pub struct ConfigManager {
    config_path: PathBuf,
    data_root: PathBuf,
}

impl Clone for ConfigManager {
    fn clone(&self) -> (r: Self)
        ensures
            r == *self,
    {
        ConfigManager {
            config_path: clone_path(&self.config_path),
            data_root: clone_path(&self.data_root),
        }
    }
}

impl ConfigManager {
    /// The configuration file.
    pub closed spec fn spec_config_path(&self) -> PathBuf {
        self.config_path
    }

    /// The data root directory.
    pub closed spec fn spec_data_root(&self) -> PathBuf {
        self.data_root
    }

    /// A manager for the given configuration file and data root.
    pub fn from_paths(config_path: PathBuf, data_root: PathBuf) -> (m: Self)
        ensures
            m.spec_config_path() == config_path,
            m.spec_data_root() == data_root,
    {
        ConfigManager { config_path, data_root }
    }

    /// The manager rooted in a home directory: `<home>/.companion`, holding
    /// `config.json`; without a home directory, `NoHomeDir`.
    pub fn for_home(home: Option<PathBuf>) -> (r: Result<Self, ConfigError>)
        ensures
            home is None ==> r matches Err(ConfigError::NoHomeDir),
            home matches Some(h) ==> (r matches Ok(m) && m.spec_data_root() == spec_path_join(
                h,
                ".companion"@,
            ) && m.spec_config_path() == spec_path_join(
                spec_path_join(h, ".companion"@),
                "config.json"@,
            )),
    {
        match home {
            None => Err(ConfigError::NoHomeDir),
            Some(h) => {
                let data_root = path_join(&h, ".companion");
                let config_path = path_join(&data_root, "config.json");
                Ok(ConfigManager { config_path, data_root })
            },
        }
    }

    /// The manager for the default `~/.companion/` root; `NoHomeDir` when
    /// the user's home directory cannot be determined. Whether the machine
    /// names a home directory, and which, is not known here; when it does,
    /// the manager is rooted in `<home>/.companion` with `config.json` in it.
    pub fn new() -> (r: Result<Self, ConfigError>)
        ensures
            r matches Err(e) ==> e is NoHomeDir,
            r matches Ok(m) ==> exists|h: PathBuf|
                m.spec_data_root() == #[trigger] spec_path_join(h, ".companion"@)
                    && m.spec_config_path() == spec_path_join(
                    spec_path_join(h, ".companion"@),
                    "config.json"@,
                ),
    {
        let home = home_dir();
        Self::for_home(home)
    }

    /// The data root directory.
    pub fn root_dir(&self) -> (p: PathBuf)
        ensures
            p == self.spec_data_root(),
    {
        clone_path(&self.data_root)
    }

    /// The configuration file.
    pub fn config_path(&self) -> (p: PathBuf)
        ensures
            p == self.spec_config_path(),
    {
        clone_path(&self.config_path)
    }
}

/// What loading the configuration does, by what is on disk.
#[derive(Debug, Clone, Copy, PartialEq, Eq, Structural)]
pub enum ConfigLoad {
    /// No file yet: write the defaults and use them.
    CreateDefault,
    /// The file parses: use it.
    UseFile,
    /// The file does not parse: back it up, write the defaults and use them.
    ReplaceCorrupt,
}

/// Decides what loading does: a missing file is created with the defaults;
/// a file that parses is used; one that does not is backed up and replaced
/// by the defaults (`parses` is not consulted when there is no file).
pub fn config_load_action(file_exists: bool, parses: bool) -> (r: ConfigLoad)
    ensures
        !file_exists ==> r == ConfigLoad::CreateDefault,
        file_exists && parses ==> r == ConfigLoad::UseFile,
        file_exists && !parses ==> r == ConfigLoad::ReplaceCorrupt,
{
    if !file_exists {
        ConfigLoad::CreateDefault
    } else if parses {
        ConfigLoad::UseFile
    } else {
        ConfigLoad::ReplaceCorrupt
    }
}

} // verus!
