use companion::agent::{chat_token_payload, history_messages, HistoryEntry, MessageRole};
use companion::asr::{completion_transcript, trimmed, wav_data_url, whisper_transcript, AsrError};
use companion::chat::{content_width, wrap_text, ChatLine, ChatWidget};
use companion::cli::{pipe_message, run_mode, RunMode};
use companion::encoding::data_url;
use companion::input::{CursorView, InputWidget};
use companion::models::{file_name, is_offered, select_models};
use companion::system::{check_browse_url, http_error_text, model_ids, models_url, png_data_url};
use companion::tray::{asr_menu_id, tray_menu_action, TrayAction};
use companion::voice::VoiceCommand;

fn s(v: &[&str]) -> Vec<String> {
    v.iter().map(|x| x.to_string()).collect()
}

#[test]
fn data_urls_are_base64() {
    assert_eq!(data_url("text/plain", b"hi"), "data:text/plain;base64,aGk=");
    assert_eq!(wav_data_url(b"RIFF"), "data:audio/wav;base64,UklGRg==");
    assert_eq!(png_data_url(&[0, 1, 2]), "data:image/png;base64,AAEC");
}

#[test]
fn transcripts_from_replies() {
    assert_eq!(whisper_transcript(r#"{"text":"  hello \n"}"#).unwrap(), "hello");
    assert_eq!(whisper_transcript(r#"{"other":1}"#).unwrap(), "");
    assert_eq!(
        completion_transcript(r#"{"choices":[{"message":{"content":" 你好 "}}]}"#.as_bytes()).unwrap(),
        "你好"
    );
    assert_eq!(completion_transcript(br#"{"choices":[]}"#).unwrap(), "");
    match whisper_transcript("not json") {
        Err(AsrError::Internal(m)) => {
            let serde_msg = serde_json::from_str::<serde_json::Value>("not json").unwrap_err().to_string();
            assert_eq!(m, format!("json parse: {serde_msg}"));
        }
        other => panic!("unexpected {other:?}"),
    }
    match completion_transcript(b"{") {
        Err(AsrError::Internal(m)) => assert_eq!(m, "json: error decoding response body"),
        other => panic!("unexpected {other:?}"),
    }
    assert_eq!(trimmed("\t a b \u{3000}"), "a b");
}

#[test]
fn model_list_selection() {
    let found = s(&[
        "b/Zeta.model3.json",
        "a/Epsilon.model3.json",
        "ren_x/a.model3.json",
        "q/ren.model3.json",
        "haru/haru.model3.json",
        "haru/haru.model3.json",
        "other/haru.model3.json",
        "a/Alpha.model3.json",
        "m/MIKU_PRO.model3.json",
    ]);
    assert_eq!(
        select_models(&found),
        s(&["a/Alpha.model3.json", "b/Zeta.model3.json", "haru/haru.model3.json"])
    );
    assert_eq!(select_models(&Vec::new()), s(&["haru/haru.model3.json"]));
    assert!(!is_offered("X/EPSILON.json"));
    assert!(is_offered("x/renard.json"));
    assert_eq!(file_name("a/b/c.json"), "c.json");
    assert_eq!(file_name("c.json"), "c.json");
    assert_eq!(file_name("a/"), "");
}

#[test]
fn system_rules() {
    assert!(check_browse_url("https://example.com").is_ok());
    assert!(check_browse_url("HTTP://EXAMPLE.COM").is_ok());
    assert_eq!(check_browse_url("file:///etc/passwd").unwrap_err(), "Only http:// and https:// URLs are allowed");
    assert_eq!(models_url("https://api.x/v1//"), "https://api.x/v1/models");
    assert_eq!(models_url("https://api.x/v1"), "https://api.x/v1/models");
}

#[test]
fn command_line_modes() {
    assert_eq!(run_mode(false, false), RunMode::Interactive);
    assert_eq!(run_mode(true, true), RunMode::Pipe);
    assert_eq!(run_mode(true, false), RunMode::Invalid);
    assert_eq!(run_mode(false, true), RunMode::Invalid);
    assert_eq!(pipe_message("  hello\n").as_deref(), Some("hello"));
    assert_eq!(pipe_message(" \n\t"), None);
}

#[test]
fn desktop_token_events() {
    assert_eq!(chat_token_payload("abc"), (false, "abc".to_string()));
    assert_eq!(chat_token_payload("\0done text"), (true, "done text".to_string()));
    assert_eq!(chat_token_payload("\0"), (true, String::new()));
}

#[test]
fn chat_layout() {
    let mut w = ChatWidget::new();
    w.add_user("hello world");
    w.start_ai();
    w.append_token("ok");
    let lines = w.layout(content_width(9));
    let shown: Vec<String> = lines
        .iter()
        .map(|l| match l {
            ChatLine::UserLabel => "<you>".to_string(),
            ChatLine::AiLabel => "<ai>".to_string(),
            ChatLine::Text(t) => t.clone(),
            ChatLine::Blank => "<blank>".to_string(),
        })
        .collect();
    assert_eq!(shown, s(&["<you>", "hello", "world", "<blank>", "<ai>", "ok", "<blank>"]));
    assert_eq!(content_width(1), 0);
    assert_eq!(wrap_text("你", 1), vec!["你"]);
    assert_eq!(wrap_text("a你b", 2), vec!["a", "你", "b"]);
    assert_eq!(wrap_text("x\u{3000}y", 2), vec!["x", "y"]);
}

#[test]
fn input_cursor_view() {
    let mut w = InputWidget::new();
    for c in "a你b".chars() {
        w.insert_char(c);
    }
    match w.cursor_view() {
        CursorView::AtEnd(t) => assert_eq!(t, "a你b"),
        _ => panic!("cursor should be at the end"),
    }
    w.cursor_left();
    w.cursor_left();
    match w.cursor_view() {
        CursorView::Inside { before, at, after } => {
            assert_eq!(before, "a");
            assert_eq!(at, "你");
            assert_eq!(after, "b");
        }
        _ => panic!("cursor should be inside"),
    }
}

#[test]
fn tray_items_map_to_actions() {
    assert!(matches!(tray_menu_action("show_hide"), TrayAction::ShowHide));
    assert!(matches!(tray_menu_action("settings"), TrayAction::Settings));
    assert!(matches!(tray_menu_action("quit"), TrayAction::Quit));
    assert!(matches!(tray_menu_action("record"), TrayAction::Send(VoiceCommand::RecordStart)));
    assert!(matches!(tray_menu_action("tts_selection"), TrayAction::Send(VoiceCommand::TtsTrigger)));
    assert!(matches!(
        tray_menu_action("inject_keyboard"),
        TrayAction::Send(VoiceCommand::SetInjectMode(m)) if m == "keyboard"
    ));
    assert!(matches!(
        tray_menu_action("inject_clipboard"),
        TrayAction::Send(VoiceCommand::SetInjectMode(m)) if m == "clipboard"
    ));
    let id = asr_menu_id("sensevoice");
    assert_eq!(id, "asr_sensevoice");
    assert!(matches!(
        tray_menu_action(&id),
        TrayAction::Send(VoiceCommand::SetAsrEngine(n)) if n == "sensevoice"
    ));
    assert!(matches!(
        tray_menu_action("asr_"),
        TrayAction::Send(VoiceCommand::SetAsrEngine(n)) if n.is_empty()
    ));
    assert!(matches!(tray_menu_action("about"), TrayAction::Nothing));
    assert!(matches!(tray_menu_action("Quit"), TrayAction::Nothing));
}

fn entry(role: Option<&str>, content: Option<&str>) -> HistoryEntry {
    HistoryEntry { role: role.map(String::from), content: content.map(String::from) }
}

#[test]
fn history_from_reply() {
    assert!(history_messages(false, None).unwrap().is_empty());
    assert!(history_messages(false, Some(vec![entry(Some("user"), Some("x"))])).unwrap().is_empty());
    assert_eq!(history_messages(true, None).unwrap_err(), "bad history response");
    let got = history_messages(
        true,
        Some(vec![
            entry(Some("assistant"), Some("hi")),
            entry(None, Some("q")),
            entry(Some("tool"), None),
            entry(Some("system"), Some("s")),
            entry(Some("robot"), Some("r")),
        ]),
    )
    .unwrap();
    let roles: Vec<MessageRole> = got.iter().map(|m| m.role).collect();
    let contents: Vec<&str> = got.iter().map(|m| m.content.as_str()).collect();
    assert_eq!(
        roles,
        vec![
            MessageRole::Assistant,
            MessageRole::User,
            MessageRole::Tool,
            MessageRole::System,
            MessageRole::User
        ]
    );
    assert_eq!(contents, vec!["hi", "q", "", "s", "r"]);
    assert!(history_messages(true, Some(Vec::new())).unwrap().is_empty());
}

#[test]
fn model_ids_from_reply() {
    assert_eq!(
        model_ids(br#"{"data":[{"id":"gpt-4o"},{"name":"x"},{"id":3},{"id":"mimo"}]}"#).unwrap(),
        s(&["gpt-4o", "mimo"])
    );
    assert!(model_ids(br#"{"data":{"id":"a"}}"#).unwrap().is_empty());
    assert!(model_ids(br#"{"object":"list"}"#).unwrap().is_empty());
    assert_eq!(model_ids(b"<html>").unwrap_err(), "Parse: error decoding response body");
    assert_eq!(http_error_text(401, "no key"), "HTTP 401: no key");
    assert_eq!(http_error_text(0, ""), "HTTP 0: ");
}
