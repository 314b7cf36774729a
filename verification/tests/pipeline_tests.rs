use companion::config::GlobalVoiceConfig;
use companion::global_voice::{apply_voice_setting, InjectMode, VoiceSettings};
use companion::voice::VoiceCommand;
use companion::agent::{
    signals_for_token, stream_chunk, stream_line_payload, stream_line_step, AgentError,
    MessageRole, StreamSignal, StreamStep,
};
use companion::asr::AsrError;
use companion::stream::{stream_feed, stream_rest};
use companion::chat::ChatWidget;
use companion::hotkey::HotkeyEvent;
use companion::input::InputWidget;
use companion::session::{apply_stream_signal, apply_voice_event, handle_key, KeyInput, KeyOutcome};
use companion::sidecar::{base_url, parse_port, request_id, rpc_reply_error, RequestCounter};
use companion::status::AppState;
use companion::voice::{
    captured_audio_event, cycle_asr_engine, get_voice_state, transcription_event, CaptureAction,
    PushToTalk, VoiceEvent,
};

fn msgs(w: &ChatWidget) -> Vec<(String, String)> {
    w.messages.iter().map(|m| (m.role.clone(), m.content.clone())).collect()
}

#[test]
fn role_names_round_trip() {
    for r in [MessageRole::User, MessageRole::Assistant, MessageRole::System, MessageRole::Tool] {
        assert_eq!(MessageRole::from_wire_name(r.wire_name()), r);
    }
    assert_eq!(MessageRole::from_wire_name("robot"), MessageRole::User);
    assert_eq!(MessageRole::Assistant.wire_name(), "assistant");
}

#[test]
fn stream_lines() {
    assert_eq!(stream_line_payload("data: {\"a\":1}").as_deref(), Some("{\"a\":1}"));
    assert_eq!(stream_line_payload(": keepalive"), None);
    assert_eq!(stream_line_payload(""), None);
    match stream_line_step(r#"data: {"type":"event","event":"token","data":{"token":"Hi"}}"#) {
        StreamStep::Emit(t) => assert_eq!(t, "Hi"),
        _ => panic!("expected a token"),
    }
    match stream_line_step(r#"{"type":"event","event":"done","data":{"text":"bye"}}"#) {
        StreamStep::Finish(t) => assert_eq!(t, "\0bye"),
        _ => panic!("expected the end"),
    }
    match stream_line_step(r#"{"type":"error","error":{"message":"bad"}}"#) {
        StreamStep::Finish(t) => assert_eq!(t, "\0⚠️ bad"),
        _ => panic!("expected an error"),
    }
    match stream_line_step(r#"{"type":"error"}"#) {
        StreamStep::Finish(t) => assert_eq!(t, "\0⚠️ Error"),
        _ => panic!("expected an error"),
    }
    assert!(matches!(stream_line_step("not json"), StreamStep::Continue));
    assert!(matches!(stream_line_step(r#"{"type":"event","event":"other"}"#), StreamStep::Continue));
}

#[test]
fn stream_chunks_stop_at_the_end() {
    let chunk = "data: {\"type\":\"event\",\"event\":\"token\",\"data\":{\"token\":\"a\"}}\n\n: ping\ndata: {\"type\":\"event\",\"event\":\"token\",\"data\":{\"token\":\"b\"}}\ndata: {\"type\":\"event\",\"event\":\"done\",\"data\":{}}\ndata: {\"type\":\"event\",\"event\":\"token\",\"data\":{\"token\":\"c\"}}\n";
    let (out, done) = stream_chunk(chunk);
    assert_eq!(out, vec!["a".to_string(), "b".to_string(), "\0".to_string()]);
    assert!(done);
    let (out, done) = stream_chunk("data: {\"type\":\"event\",\"event\":\"token\",\"data\":{\"token\":\"x\"}}\n");
    assert_eq!(out, vec!["x".to_string()]);
    assert!(!done);
}

#[test]
fn forwarded_strings_become_signals() {
    let (s, end) = signals_for_token("tok");
    assert!(!end);
    assert!(matches!(&s[..], [StreamSignal::Token(t)] if t == "tok"));
    let (s, end) = signals_for_token("\0final");
    assert!(end);
    assert!(matches!(&s[..], [StreamSignal::Token(t), StreamSignal::Done] if t == "final"));
    let (s, end) = signals_for_token("\0");
    assert!(end);
    assert!(matches!(&s[..], [StreamSignal::Done]));
    let (s, end) = signals_for_token("\0⚠️ oops");
    assert!(end);
    assert!(matches!(&s[..], [StreamSignal::Error(m)] if m == "⚠️ oops"));
}

#[test]
fn agent_error_messages() {
    assert_eq!(AgentError::NotRunning.message(), "agent subprocess not running");
    assert_eq!(AgentError::SubprocessCrashed("x".into()).message(), "agent subprocess crashed: x");
    assert_eq!(AgentError::RpcError("y".into()).message(), "RPC communication error: y");
    assert_eq!(AgentError::AgentReturnedError("z".into()).message(), "agent returned an error: z");
    assert_eq!(AgentError::Timeout.message(), "timeout waiting for agent response");
}

#[test]
fn sidecar_rules() {
    assert_eq!(base_url(None), "http://127.0.0.1:9876");
    assert_eq!(base_url(Some(80)), "http://127.0.0.1:80");
    assert_eq!(request_id('r', 0), "r0");
    assert_eq!(request_id('s', 1234), "s1234");
    let mut c = RequestCounter::new();
    assert_eq!(c.take(), 0);
    assert_eq!(c.take(), 1);
    assert_eq!(parse_port(" 9876\n").ok(), Some(9876));
    assert_eq!(parse_port("+80").ok(), Some(80));
    assert_eq!(parse_port("65535").ok(), Some(65535));
    assert!(parse_port("65536").is_err());
    assert!(parse_port("").is_err());
    assert!(parse_port("+").is_err());
    assert!(parse_port("-1").is_err());
    assert!(parse_port("12a").is_err());
    match parse_port("x") {
        Err(e) => assert_eq!(e.message(), "agent subprocess crashed: Parse port"),
        Ok(_) => panic!("accepted"),
    }
    assert!(rpc_reply_error(Some("result"), None).is_none());
    assert!(rpc_reply_error(None, Some("m")).is_none());
    assert_eq!(rpc_reply_error(Some("error"), Some("m")).unwrap().message(), "agent returned an error: m");
    assert_eq!(rpc_reply_error(Some("error"), None).unwrap().message(), "agent returned an error: Unknown");
}

#[test]
fn push_to_talk() {
    let mut p = PushToTalk::new();
    let (a, e) = p.on_hotkey(HotkeyEvent::RecordStop);
    assert_eq!(a, CaptureAction::Ignore);
    assert!(e.is_none());
    let (a, e) = p.on_hotkey(HotkeyEvent::RecordStart);
    assert_eq!(a, CaptureAction::Start);
    assert!(matches!(e, Some(VoiceEvent::ListeningStarted)));
    assert!(p.is_recording());
    let (a, _) = p.on_hotkey(HotkeyEvent::RecordStart);
    assert_eq!(a, CaptureAction::Ignore);
    let (a, _) = p.on_hotkey(HotkeyEvent::TtsTrigger);
    assert_eq!(a, CaptureAction::Ignore);
    let (a, e) = p.on_hotkey(HotkeyEvent::RecordStop);
    assert_eq!(a, CaptureAction::Stop);
    assert!(matches!(e, Some(VoiceEvent::ListeningStopped)));
    assert!(!p.is_recording());
    p.on_hotkey(HotkeyEvent::RecordStart);
    assert!(matches!(p.on_capture_started(false), Some(VoiceEvent::Error(m)) if m == "Mic start failed"));
    assert!(!p.is_recording());
    assert!(p.on_capture_started(true).is_none());
}

#[test]
fn transcription_outcomes() {
    assert!(matches!(captured_audio_event(0), Some(VoiceEvent::Error(m)) if m == "No audio captured"));
    assert!(captured_audio_event(10).is_none());
    assert!(matches!(transcription_event("mimo", None), Some(VoiceEvent::Error(m)) if m == "ASR engine 'mimo' not found"));
    assert!(matches!(
        transcription_event("mimo", Some(Err(AsrError::Internal("x".into())))),
        Some(VoiceEvent::Error(m)) if m == "ASR: ASR internal error: x"
    ));
    assert!(transcription_event("mimo", Some(Ok(String::new()))).is_none());
    assert!(matches!(transcription_event("mimo", Some(Ok("hi".into()))), Some(VoiceEvent::TextReady(t)) if t == "hi"));
}

#[test]
fn voice_state_and_engines() {
    assert_eq!(get_voice_state(true, true), "speaking");
    assert_eq!(get_voice_state(false, true), "listening");
    assert_eq!(get_voice_state(false, false), "idle");
    let names = vec!["mimo".to_string(), "openai".to_string()];
    assert_eq!(cycle_asr_engine(&names, "mimo").as_deref(), Some("openai"));
    assert_eq!(cycle_asr_engine(&names, "openai").as_deref(), Some("mimo"));
    assert_eq!(cycle_asr_engine(&names, "other").as_deref(), Some("mimo"));
    assert_eq!(cycle_asr_engine(&Vec::new(), "mimo"), None);
}

#[test]
fn keys_edit_send_and_quit() {
    let mut input = InputWidget::new();
    let mut chat = ChatWidget::new();
    let mut state = AppState::Idle;
    for c in "hi".chars() {
        assert!(matches!(handle_key(KeyInput::Char(c), true, &mut input, &mut chat, &mut state), KeyOutcome::Continue));
    }
    assert_eq!(input.buffer, "hi");
    handle_key(KeyInput::Left, true, &mut input, &mut chat, &mut state);
    handle_key(KeyInput::Backspace, true, &mut input, &mut chat, &mut state);
    assert_eq!(input.buffer, "i");
    handle_key(KeyInput::End, true, &mut input, &mut chat, &mut state);
    match handle_key(KeyInput::Enter, true, &mut input, &mut chat, &mut state) {
        KeyOutcome::Send(t) => assert_eq!(t, "i"),
        other => panic!("unexpected {other:?}"),
    }
    assert_eq!(state, AppState::Processing);
    assert_eq!(input.buffer, "");
    assert_eq!(msgs(&chat), vec![("You".to_string(), "i".to_string()), ("AI".to_string(), String::new())]);
    assert!(matches!(handle_key(KeyInput::Enter, true, &mut input, &mut chat, &mut state), KeyOutcome::Continue));
    assert_eq!(chat.messages.len(), 2);
    assert!(matches!(handle_key(KeyInput::Char('q'), true, &mut input, &mut chat, &mut state), KeyOutcome::Quit));
    assert!(matches!(handle_key(KeyInput::Char('q'), false, &mut input, &mut chat, &mut state), KeyOutcome::Continue));
    assert_eq!(input.buffer, "q");
    assert!(matches!(handle_key(KeyInput::Esc, false, &mut input, &mut chat, &mut state), KeyOutcome::Quit));
    handle_key(KeyInput::PageUp, false, &mut input, &mut chat, &mut state);
    assert_eq!(chat.scroll, 5);
    handle_key(KeyInput::PageDown, false, &mut input, &mut chat, &mut state);
    assert_eq!(chat.scroll, 0);
    assert!(!chat.scrolled_up);
}

#[test]
fn voice_and_stream_events_drive_the_view() {
    let mut chat = ChatWidget::new();
    let mut state = AppState::Idle;
    assert!(apply_voice_event(VoiceEvent::ListeningStarted, &mut chat, &mut state).is_none());
    assert_eq!(state, AppState::Listening);
    apply_voice_event(VoiceEvent::ListeningStopped, &mut chat, &mut state);
    assert_eq!(state, AppState::Processing);
    assert_eq!(apply_voice_event(VoiceEvent::TextReady("hey".into()), &mut chat, &mut state).as_deref(), Some("hey"));
    assert!(apply_voice_event(VoiceEvent::Error("x".into()), &mut chat, &mut state).is_none());
    assert!(!apply_stream_signal(StreamSignal::Token("Hel".into()), &mut chat, &mut state));
    assert!(!apply_stream_signal(StreamSignal::Token("lo".into()), &mut chat, &mut state));
    assert_eq!(state, AppState::Processing);
    assert!(apply_stream_signal(StreamSignal::Error("boom".into()), &mut chat, &mut state));
    assert_eq!(state, AppState::Idle);
    assert_eq!(
        msgs(&chat),
        vec![("You".to_string(), "hey".to_string()), ("AI".to_string(), "Hello [⚠️ boom]".to_string())]
    );
    state = AppState::Processing;
    assert!(apply_stream_signal(StreamSignal::Done, &mut chat, &mut state));
    assert_eq!(state, AppState::Idle);
}

#[test]
fn global_voice_settings() {
    let names = vec!["mimo".to_string(), "openai".to_string()];
    let mut s = VoiceSettings {
        asr_engine: "mimo".to_string(),
        inject_mode: InjectMode::Keyboard,
        config: GlobalVoiceConfig::default(),
    };
    assert!(apply_voice_setting(VoiceCommand::CycleAsrEngine, &names, &mut s));
    assert_eq!(s.asr_engine, "openai");
    assert_eq!(s.config.asr_engine, "openai");
    assert!(apply_voice_setting(VoiceCommand::ToggleInjectMode, &names, &mut s));
    assert_eq!(s.inject_mode, InjectMode::Clipboard);
    assert_eq!(s.config.inject_mode, "clipboard");
    assert!(apply_voice_setting(VoiceCommand::SetInjectMode("whatever".into()), &names, &mut s));
    assert_eq!(s.inject_mode, InjectMode::Keyboard);
    assert_eq!(s.config.inject_mode, "whatever");
    assert!(apply_voice_setting(VoiceCommand::SetAsrEngine("aliyun".into()), &names, &mut s));
    assert_eq!(s.asr_engine, "aliyun");
    assert!(!apply_voice_setting(VoiceCommand::RecordStart, &names, &mut s));
    assert!(!apply_voice_setting(VoiceCommand::CycleAsrEngine, &Vec::new(), &mut s));
    assert_eq!(s.asr_engine, "aliyun");
    assert_eq!(InjectMode::from_name("clipboard").toggle().as_str(), "keyboard");
}

#[test]
fn laws_on_concrete_values() {
    // request ids never repeat
    let mut c = RequestCounter::new();
    let a = request_id('r', c.take());
    let b = request_id('r', c.take());
    assert_ne!(a, b);
    // an announced port reads back
    for p in [0u16, 7, 80, 9876, 65535] {
        assert_eq!(parse_port(&p.to_string()).ok(), Some(p));
        assert_eq!(base_url(Some(p)), format!("http://127.0.0.1:{p}"));
    }
    // inject modes round-trip
    for m in [InjectMode::Keyboard, InjectMode::Clipboard] {
        assert_eq!(m.toggle().toggle(), m);
        assert_eq!(InjectMode::from_name(m.as_str()), m);
    }
}

#[test]
fn stream_lines_split_across_chunks() {
    let mut pending: Vec<u8> = Vec::new();
    let (out, done) = stream_feed(&mut pending, b"data: {\"type\":\"event\",\"event\":\"tok");
    assert!(out.is_empty());
    assert!(!done);
    let (out, done) =
        stream_feed(&mut pending, b"en\",\"data\":{\"token\":\"Hi\"}}\ndata: {\"type\":\"ev");
    assert_eq!(out, vec!["Hi".to_string()]);
    assert!(!done);
    assert_eq!(pending, b"data: {\"type\":\"ev".to_vec());
    let (out, done) =
        stream_feed(&mut pending, b"ent\",\"event\":\"done\",\"data\":{\"text\":\"x\"}}\n");
    assert_eq!(out, vec!["\0x".to_string()]);
    assert!(done);
    assert!(pending.is_empty());
}

#[test]
fn stream_character_split_across_chunks() {
    let line = "{\"type\":\"event\",\"event\":\"token\",\"data\":{\"token\":\"你好\"}}\n";
    let bytes = line.as_bytes();
    let cut = line.find('你').unwrap() + 1;
    let mut pending: Vec<u8> = Vec::new();
    let (out, done) = stream_feed(&mut pending, &bytes[..cut]);
    assert!(out.is_empty() && !done);
    let (out, done) = stream_feed(&mut pending, &bytes[cut..]);
    assert_eq!(out, vec!["你好".to_string()]);
    assert!(!done);
    assert!(pending.is_empty());
}

#[test]
fn stream_rest_reads_last_line_without_newline() {
    let mut pending: Vec<u8> = Vec::new();
    let (out, done) = stream_feed(
        &mut pending,
        b"{\"type\":\"event\",\"event\":\"done\",\"data\":{\"text\":\"bye\"}}",
    );
    assert!(out.is_empty() && !done);
    assert_eq!(stream_rest(&pending), vec!["\0bye".to_string()]);
    assert_eq!(stream_rest(b""), vec!["\0⚠️ Stream ended".to_string()]);
    assert_eq!(
        stream_rest(b"data: {\"type\":\"event\",\"event\":\"token\",\"data\":{\"token\":\"a\"}}\r\n: ping"),
        vec!["a".to_string(), "\0⚠️ Stream ended".to_string()]
    );
}

/// Reads a body cut into the given chunks as the sidecar client does.
fn read_in_chunks(chunks: &[&[u8]]) -> Vec<String> {
    let mut pending: Vec<u8> = Vec::new();
    let mut out = Vec::new();
    for c in chunks {
        let (o, done) = stream_feed(&mut pending, c);
        out.extend(o);
        if done {
            return out;
        }
    }
    out.extend(stream_rest(&pending));
    out
}

#[test]
fn stream_chunking_does_not_matter() {
    let body = "data: {\"type\":\"event\",\"event\":\"token\",\"data\":{\"token\":\"你\"}}\n\
        : keep-alive\n\
        {\"type\":\"event\",\"event\":\"token\",\"data\":{\"token\":\"好\"}}\r\n\
        {\"type\":\"event\",\"event\":\"done\",\"data\":{\"text\":\"\"}}\n\
        {\"type\":\"event\",\"event\":\"token\",\"data\":{\"token\":\"late\"}}\n";
    let bytes = body.as_bytes();
    let whole = read_in_chunks(&[bytes]);
    assert_eq!(whole, vec!["你".to_string(), "好".to_string(), "\0".to_string()]);
    for cut in 0..=bytes.len() {
        assert_eq!(read_in_chunks(&[&bytes[..cut], &bytes[cut..]]), whole);
    }
    let singles: Vec<&[u8]> = bytes.chunks(1).collect();
    assert_eq!(read_in_chunks(&singles), whole);
}

#[test]
fn failed_mic_start_ends_listening() {
    let mut p = PushToTalk::new();
    let (a, e) = p.on_hotkey(HotkeyEvent::RecordStart);
    assert_eq!(a, CaptureAction::Start);
    assert!(matches!(e, Some(VoiceEvent::ListeningStarted)));
    let e = p.on_capture_started(false);
    assert!(matches!(e, Some(VoiceEvent::Error(m)) if m == "Mic start failed"));
    assert!(!p.is_recording());
    // the release of the failed press does nothing
    let (a, e) = p.on_hotkey(HotkeyEvent::RecordStop);
    assert_eq!(a, CaptureAction::Ignore);
    assert!(e.is_none());
    // the next press starts again and is ended by its release
    let (a, e) = p.on_hotkey(HotkeyEvent::RecordStart);
    assert_eq!(a, CaptureAction::Start);
    assert!(matches!(e, Some(VoiceEvent::ListeningStarted)));
    assert!(p.on_capture_started(true).is_none());
    let (a, e) = p.on_hotkey(HotkeyEvent::RecordStop);
    assert_eq!(a, CaptureAction::Stop);
    assert!(matches!(e, Some(VoiceEvent::ListeningStopped)));
}
