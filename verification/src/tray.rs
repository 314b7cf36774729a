//! The tray menu of the desktop shell: the ids of its items and what a
//! click on each of them asks for.
use vstd::prelude::*;
use crate::text::{chars_of, concat, starts_with, str_equal, string_from_range, string_of};
use crate::voice::VoiceCommand;

verus! {

/// What a click on a tray menu item asks for.
pub enum TrayAction {
    /// Show the main window, or hide it when it is visible.
    ShowHide,
    /// Open the settings window.
    Settings,
    /// Quit the application.
    Quit,
    /// Hand a command to the global voice handler.
    Send(VoiceCommand),
    /// An item that does nothing.
    Nothing,
}

/// The id of the tray item that selects the ASR engine `name`.
pub fn asr_menu_id(name: &str) -> (id: String)
    ensures
        id@ == "asr_"@ + name@,
{
    concat("asr_", name)
}

/// Whether `id` is one of the fixed item ids of the tray menu.
pub open spec fn is_fixed_item(id: Seq<char>) -> bool {
    ||| id == "show_hide"@
    ||| id == "settings"@
    ||| id == "quit"@
    ||| id == "record"@
    ||| id == "tts_selection"@
    ||| id == "inject_keyboard"@
    ||| id == "inject_clipboard"@
}

/// What a click on the tray item `id` asks for: the fixed items map to their
/// action, an `asr_<name>` item selects the ASR engine `<name>`, and any
/// other id does nothing.
pub fn tray_menu_action(id: &str) -> (r: TrayAction)
    ensures
        if id@ == "show_hide"@ {
            r is ShowHide
        } else if id@ == "settings"@ {
            r is Settings
        } else if id@ == "quit"@ {
            r is Quit
        } else if id@ == "record"@ {
            r matches TrayAction::Send(VoiceCommand::RecordStart)
        } else if id@ == "tts_selection"@ {
            r matches TrayAction::Send(VoiceCommand::TtsTrigger)
        } else if id@ == "inject_keyboard"@ {
            r matches TrayAction::Send(VoiceCommand::SetInjectMode(m)) && m@ == "keyboard"@
        } else if id@ == "inject_clipboard"@ {
            r matches TrayAction::Send(VoiceCommand::SetInjectMode(m)) && m@ == "clipboard"@
        } else if "asr_"@.is_prefix_of(id@) {
            r matches TrayAction::Send(VoiceCommand::SetAsrEngine(n)) && n@ == id@.skip(4)
        } else {
            r is Nothing
        },
{
    if str_equal(id, "show_hide") {
        TrayAction::ShowHide
    } else if str_equal(id, "settings") {
        TrayAction::Settings
    } else if str_equal(id, "quit") {
        TrayAction::Quit
    } else if str_equal(id, "record") {
        TrayAction::Send(VoiceCommand::RecordStart)
    } else if str_equal(id, "tts_selection") {
        TrayAction::Send(VoiceCommand::TtsTrigger)
    } else if str_equal(id, "inject_keyboard") {
        TrayAction::Send(VoiceCommand::SetInjectMode(string_of("keyboard")))
    } else if str_equal(id, "inject_clipboard") {
        TrayAction::Send(VoiceCommand::SetInjectMode(string_of("clipboard")))
    } else {
        let v = chars_of(id);
        if starts_with(&v, "asr_") {
            proof {
                reveal_strlit("asr_");
            }
            TrayAction::Send(VoiceCommand::SetAsrEngine(string_from_range(&v, 4, v.len())))
        } else {
            TrayAction::Nothing
        }
    }
}

/// The ASR item of an engine selects that engine: the id `asr_menu_id`
/// builds for `name` is no fixed item, and `tray_menu_action` reads `name`
/// back out of it.
pub proof fn lemma_asr_item_selects_engine(name: Seq<char>)
    ensures
        !is_fixed_item("asr_"@ + name),
        "asr_"@.is_prefix_of("asr_"@ + name),
        ("asr_"@ + name).skip(4) == name,
{
    reveal_strlit("asr_");
    reveal_strlit("show_hide");
    reveal_strlit("settings");
    reveal_strlit("quit");
    reveal_strlit("record");
    reveal_strlit("tts_selection");
    reveal_strlit("inject_keyboard");
    reveal_strlit("inject_clipboard");
    let id = "asr_"@ + name;
    assert(id[0] == 'a' && id[1] == 's' && id[2] == 'r' && id[3] == '_');
    assert(id.skip(4) =~= name);
    assert("asr_"@ =~= id.take(4));
}

} // verus!
