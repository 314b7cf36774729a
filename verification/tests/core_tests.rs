use std::io::Write;
use companion::asr::{check_audio_length, AsrError, MockAsr};
use companion::audio::{append_first_channel, pcm_i16_to_wav};
use companion::config::{
    default_asr, default_engine_switch_hotkey, default_global_asr_engine,
    default_global_record_hotkey, default_global_tts_engine, default_global_tts_hotkey,
    default_inject_mode, default_inject_switch_hotkey, default_llm, default_style, default_tts,
    default_tts_voice, default_user_name, default_voice_mode, sandbox_path_for, config_load_action,
    ConfigLoad, ConfigManager,
    GlobalVoiceConfig,
};
use companion::downloader::{archive_size, plan_entry, progress_after_chunk, zip_entry_target, DownloadProgress};
use companion::status::AppState;
use companion::tts::MockTts;
use std::path::PathBuf;

#[test]
fn test_mock_asr() {
    let mock = MockAsr::new("你好");
    let result = mock.transcribe(16000).unwrap();
    assert_eq!(result, "你好");
}

/// Synthesis itself is asynchronous and yields floating-point samples, so it
/// runs in the application; the library fixes the voice name and how many
/// samples each synthesis yields, which is what this checks.
#[test]
fn test_mock_tts() {
    let mock = MockTts::new(16000);
    assert_eq!(mock.sample_count(), 16000);
    assert_eq!(mock.voice_name(), "Mock");
}

#[test]
fn mock_asr_switch_model_keeps_answer() {
    let mut mock = MockAsr::new("ok");
    assert!(mock.switch_model("other").is_ok());
    assert_eq!(mock.transcribe(0).unwrap(), "ok");
}

#[test]
fn audio_length_gate() {
    assert!(check_audio_length(1600).is_ok());
    assert!(check_audio_length(16000).is_ok());
    match check_audio_length(800) {
        Err(AsrError::AudioTooShort(ms)) => assert_eq!(ms, 50),
        other => panic!("unexpected {other:?}"),
    }
    match check_audio_length(0) {
        Err(AsrError::AudioTooShort(ms)) => assert_eq!(ms, 0),
        other => panic!("unexpected {other:?}"),
    }
}

#[test]
fn asr_error_messages() {
    assert_eq!(AsrError::Internal("boom".into()).message(), "ASR internal error: boom");
    assert_eq!(AsrError::ModelNotFound("m".into()).message(), "model not found: m");
    assert_eq!(AsrError::AudioTooShort(93).message(), "audio too short: 93ms < minimum");
}

#[test]
fn defaults() {
    assert_eq!(default_global_record_hotkey(), "Alt+`");
    assert_eq!(default_global_tts_hotkey(), "Alt+T");
    assert_eq!(default_inject_switch_hotkey(), "Alt+Shift+V");
    assert_eq!(default_engine_switch_hotkey(), "Alt+Shift+E");
    assert_eq!(default_inject_mode(), "keyboard");
    assert_eq!(default_global_asr_engine(), "mimo");
    assert_eq!(default_global_tts_engine(), "mimo-tts");
    assert_eq!(default_llm(), "siliconflow");
    assert_eq!(default_asr(), "local");
    assert_eq!(default_tts(), "local");
    assert_eq!(default_voice_mode(), "ptt");
    assert_eq!(default_tts_voice(), "茉莉");
    assert_eq!(default_user_name(), "User");
    assert_eq!(default_style(), "professional");
    let g = GlobalVoiceConfig::default();
    assert_eq!(g.record_hotkey, "Alt+`");
    assert_eq!(g.asr_engine, "mimo");
    assert_eq!(g.tts_engine, "mimo-tts");
}

#[test]
fn config_manager_paths() {
    let home = PathBuf::from("/home/u");
    let m = ConfigManager::for_home(Some(home.clone())).ok().unwrap();
    assert_eq!(m.root_dir(), home.join(".companion"));
    assert_eq!(m.config_path(), home.join(".companion").join("config.json"));
    assert!(ConfigManager::for_home(None).is_err());
    let m2 = ConfigManager::from_paths(PathBuf::from("/t/config.json"), PathBuf::from("/t"));
    assert_eq!(m2.clone().root_dir(), PathBuf::from("/t"));
}

#[test]
fn status_labels() {
    assert_eq!(AppState::Idle.label(), "● idle");
    assert_eq!(AppState::Listening.label(), "🎤 listening");
    assert_eq!(AppState::Processing.label(), "◉ thinking");
}

#[test]
fn first_channel_of_interleaved_audio() {
    let mut out = vec![9];
    append_first_channel(&mut out, &[1, 2, 3, 4, 5], 2);
    assert_eq!(out, vec![9, 1, 3, 5]);
    let mut mono = Vec::new();
    append_first_channel(&mut mono, &[1, 2, 3], 1);
    assert_eq!(mono, vec![1, 2, 3]);
    let mut three = Vec::new();
    append_first_channel(&mut three, &[1, 2, 3, 4, 5, 6], 3);
    assert_eq!(three, vec![1, 4]);
}

#[test]
fn zip_entries() {
    assert_eq!(zip_entry_target("haru/haru.model3.json", "haru").as_deref(), Some("haru.model3.json"));
    assert_eq!(zip_entry_target("haru/", "haru"), None);
    assert_eq!(zip_entry_target("__MACOSX/x", "haru"), None);
    assert_eq!(zip_entry_target(".DS_Store", "haru"), None);
    assert_eq!(zip_entry_target("tex/a.png", "haru").as_deref(), Some("tex/a.png"));
    assert_eq!(zip_entry_target("haru\\\\a.png", "haru").as_deref(), Some("a.png"));
    assert_eq!(zip_entry_target("haru2/a.json", "haru").as_deref(), Some("haru2/a.json"));
    assert_eq!(zip_entry_target("haru", "haru"), None);
    assert_eq!(zip_entry_target("harucopy", "haru").as_deref(), Some("harucopy"));
    assert_eq!(zip_entry_target("haru//", "haru"), None);
}

#[test]
fn download_progress() {
    let (d, p) = progress_after_chunk(10, 5, 100);
    assert_eq!(d, 15);
    match p {
        DownloadProgress::Downloading { downloaded, total } => {
            assert_eq!(downloaded, 15);
            assert_eq!(total, 100);
        }
        other => panic!("unexpected {other:?}"),
    }
}

#[test]
fn sandbox_paths() {
    assert_eq!(
        sandbox_path_for(Some(PathBuf::from("/home/u"))),
        PathBuf::from("/home/u").join(".companion").join("sandbox")
    );
    assert_eq!(sandbox_path_for(None), PathBuf::from("./.companion/sandbox"));
}

#[test]
fn test_pcm_i16_to_wav_roundtrip() {
    let samples: Vec<i16> = vec![0, 1000, -1000, 0, 5000, -5000, 0];
    let wav_bytes = pcm_i16_to_wav(&samples, 16000).unwrap();
    assert!(!wav_bytes.is_empty());
    assert_eq!(&wav_bytes[0..4], b"RIFF");
    assert_eq!(&wav_bytes[8..12], b"WAVE");
}

fn hound_wav(samples: &[i16], rate: u32) -> Vec<u8> {
    let spec = hound::WavSpec {
        channels: 1,
        sample_rate: rate,
        bits_per_sample: 16,
        sample_format: hound::SampleFormat::Int,
    };
    let mut buf = Vec::new();
    {
        let mut w = hound::WavWriter::new(std::io::Cursor::new(&mut buf), spec).unwrap();
        for &s in samples {
            w.write_sample(s).unwrap();
        }
        w.finalize().unwrap();
    }
    buf
}

#[test]
fn wav_bytes_match_hound() {
    for (samples, rate) in [
        (vec![], 16000u32),
        (vec![0i16, 1, -1, i16::MAX, i16::MIN, 12345, -12345], 16000),
        ((0..300).map(|i| (i * 97 - 15000) as i16).collect::<Vec<i16>>(), 24000),
    ] {
        let ours = pcm_i16_to_wav(&samples, rate).unwrap();
        assert_eq!(ours, hound_wav(&samples, rate));
        assert_eq!(ours.len(), 44 + 2 * samples.len());
    }
}

fn make_zip(files: &[&str]) -> Vec<u8> {
    let mut buf = std::io::Cursor::new(Vec::new());
    {
        let mut z = zip::ZipWriter::new(&mut buf);
        let opts = zip::write::SimpleFileOptions::default()
            .compression_method(zip::CompressionMethod::Stored);
        for f in files {
            if f.ends_with('/') {
                z.add_directory(f.trim_end_matches('/'), opts).unwrap();
            } else {
                z.start_file(*f, opts).unwrap();
                z.write_all(b"x").unwrap();
            }
        }
        z.finish().unwrap();
    }
    buf.into_inner()
}

#[test]
fn archive_planning() {
    let bytes = make_zip(&["haru/", "haru/haru.model3.json", "haru2/a.json", "__MACOSX/x", ".hidden"]);
    assert_eq!(archive_size(&bytes).unwrap(), 5);
    assert_eq!(plan_entry(&bytes, "haru", 0).unwrap(), None);
    assert_eq!(plan_entry(&bytes, "haru", 1).unwrap(), Some(("haru.model3.json".to_string(), false)));
    assert_eq!(plan_entry(&bytes, "haru", 2).unwrap(), Some(("haru2/a.json".to_string(), false)));
    assert_eq!(plan_entry(&bytes, "haru", 3).unwrap(), None);
    assert_eq!(plan_entry(&bytes, "haru", 4).unwrap(), None);
    assert!(plan_entry(&bytes, "haru", 9).unwrap_err().starts_with("read zip entry 9: "));
    assert!(archive_size(b"not a zip").unwrap_err().starts_with("open zip: "));
}

#[test]
fn config_loading_decision() {
    assert_eq!(config_load_action(false, false), ConfigLoad::CreateDefault);
    assert_eq!(config_load_action(false, true), ConfigLoad::CreateDefault);
    assert_eq!(config_load_action(true, true), ConfigLoad::UseFile);
    assert_eq!(config_load_action(true, false), ConfigLoad::ReplaceCorrupt);
}
