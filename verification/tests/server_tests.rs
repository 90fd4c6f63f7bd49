use cringecast::platform::linux_shell::{
    audio_names, lex_le_exec, mp3_stem, parse_volume_output, script_name, sort_names,
    ScriptAction,
};
use cringecast::platform::mock::MockBackend;
use cringecast::server::{
    adjust_volume_target, cap_serial_buffer, clamp_volume, debounce_wait, encoder_delta,
    fit_lcd_text, is_arm_arch, mime_from_path, needs_guard, normalize_old_path,
    parse_persisted_volume, path_before_query, queue_capacity, queue_policy_name, queue_speak,
    route_request, saw_heartbeat, serial_line_delta, take_line, teapot_request_from_segment,
    volume_display_text, volume_file_text, volume_needs_write, LcdMessage, PersistedVolumeError,
    QueuePolicy, Route, SpeechLanguage,
};
use cringecast::service::{AppConfig, CringeService, FallbackLanguageDetector, TeapotRequest};
use cringecast::text::{decimal_string, parse_u8, parse_usize, trim, IntErrorKind};
use cringecast::time::Duration;

fn s(x: &str) -> String {
    x.to_string()
}

#[test]
fn routes_front_end_and_static() {
    assert!(matches!(route_request("/old", false), Route::OldIndex));
    assert!(matches!(route_request("/old/", false), Route::OldIndex));
    assert!(matches!(route_request("/", false), Route::MetroIndex));
    assert!(matches!(route_request("/metro/", false), Route::MetroIndex));
    assert!(matches!(route_request("/old/favicon.png", false), Route::Favicon));
    match route_request("/static//static/app.js", false) {
        Route::Static { relative } => assert_eq!(relative, "app.js"),
        other => panic!("unexpected {:?}", other),
    }
    assert!(matches!(route_request("/teapot/status", false), Route::TeapotStatus));
    assert!(!needs_guard("/static/a.css", false));
    assert!(!needs_guard("/teapot/status", false));
    assert!(needs_guard("/stop", false));
}

#[test]
fn routes_api() {
    assert!(matches!(route_request("/stop", false), Route::Stop));
    assert!(matches!(route_request("/vol", false), Route::GetVolume));
    assert!(matches!(route_request("/vol/42", false), Route::SetVolume(42)));
    assert!(matches!(route_request("/vol/+7", false), Route::SetVolume(7)));
    match route_request("/vol/300", false) {
        Route::InvalidVolume(t) => assert_eq!(t, "300"),
        other => panic!("unexpected {:?}", other),
    }
    assert!(matches!(route_request("/getFilelist", false), Route::FileList));
    assert!(matches!(route_request("/uploader", true), Route::Uploader));
    assert!(matches!(
        route_request("/teapot/permanent", false),
        Route::Teapot(Some(TeapotRequest::Permanent))
    ));
    assert!(matches!(route_request("/teapot/maybe", false), Route::Teapot(None)));
    match route_request("/play/memes/bruh?x=1", false) {
        Route::Play { category, filename_no_ext } => {
            assert_eq!(category, "memes");
            assert_eq!(filename_no_ext, "bruh");
        }
        other => panic!("unexpected {:?}", other),
    }
    assert!(matches!(route_request("/a/b/c/d", false), Route::NotFound));
    assert!(matches!(route_request("", false), Route::NotFound));
}

#[test]
fn routes_speech() {
    match route_request("/say/hello world", false) {
        Route::Speak { saying, lang } => {
            assert_eq!(saying, "hello world");
            assert_eq!(lang, SpeechLanguage::English);
        }
        other => panic!("unexpected {:?}", other),
    }
    match route_request("/old/mow/cześć", false) {
        Route::Speak { saying, lang } => {
            assert_eq!(saying, "cześć");
            assert_eq!(lang, SpeechLanguage::Polish);
        }
        other => panic!("unexpected {:?}", other),
    }
    match route_request("//hej?l=pl", false) {
        Route::Speak { saying, lang } => {
            assert_eq!(saying, "hej");
            assert_eq!(lang, SpeechLanguage::FromQuery);
        }
        other => panic!("unexpected {:?}", other),
    }
    // `/old/metro` is no front-end route; it skips the guard and is spoken.
    assert!(!needs_guard("/old/metro", false));
    match route_request("/old/metro", false) {
        Route::Speak { saying, .. } => assert_eq!(saying, "metro"),
        other => panic!("unexpected {:?}", other),
    }
}

#[test]
fn path_helpers() {
    assert_eq!(path_before_query("/a?b?c"), "/a");
    assert_eq!(path_before_query("?x"), "");
    assert_eq!(normalize_old_path("/old/say/x"), "/say/x");
    assert_eq!(normalize_old_path("/older"), "/older");
    assert_eq!(mime_from_path("index.html"), "text/html; charset=utf-8");
    assert_eq!(mime_from_path("a.js"), "application/javascript");
    assert_eq!(mime_from_path("a.css"), "text/css");
    assert_eq!(mime_from_path("a.png"), "image/png");
    assert_eq!(mime_from_path("a.mp3"), "application/octet-stream");
    assert_eq!(teapot_request_from_segment("on"), Some(TeapotRequest::On));
    assert_eq!(teapot_request_from_segment("off"), Some(TeapotRequest::Off));
    assert_eq!(teapot_request_from_segment("ON"), None);
}

#[test]
fn lcd_texts() {
    assert_eq!(fit_lcd_text("API /say/zażółć\n", 31), "API /say/za");
    assert_eq!(fit_lcd_text("abcdef", 3), "abc");
    assert_eq!(volume_display_text(7), "Volume: 7%");
    assert_eq!(volume_display_text(100), "Volume: 100%");
    assert_eq!(LcdMessage::Row0(s("hi")).frame(), "hi\r");
    assert_eq!(LcdMessage::Row1(s("v")).frame(), "v\t");
}

#[test]
fn queue_settings() {
    assert_eq!(QueuePolicy::from_setting(Some(" block\n")), QueuePolicy::Block);
    assert_eq!(QueuePolicy::from_setting(Some("drop_new")), QueuePolicy::DropNew);
    assert_eq!(QueuePolicy::from_setting(None), QueuePolicy::DropNew);
    assert_eq!(queue_policy_name(QueuePolicy::Block), "block");
    assert_eq!(queue_policy_name(QueuePolicy::DropNew), "drop_new");
    assert_eq!(queue_capacity(Some("5")), 5);
    assert_eq!(queue_capacity(Some("0")), 1);
    assert_eq!(queue_capacity(Some("x")), 2);
    assert_eq!(queue_capacity(None), 2);
}

#[test]
fn parses_like_std() {
    for text in ["0", "7", "+7", "255", "256", "", "+", "-", "-1", "12a", "300x", "007", " 1"] {
        assert_eq!(parse_u8(text).ok(), text.parse::<u8>().ok(), "{:?}", text);
    }
    assert_eq!(parse_u8(""), Err(IntErrorKind::Empty));
    assert_eq!(parse_u8("1x"), Err(IntErrorKind::InvalidDigit));
    assert_eq!(parse_u8("300x"), Err(IntErrorKind::PosOverflow));
    assert_eq!(parse_u8("99x"), Err(IntErrorKind::InvalidDigit));
    assert_eq!(parse_usize("18446744073709551615").ok(), "18446744073709551615".parse::<usize>().ok());
    assert_eq!(decimal_string(0), "0");
    assert_eq!(decimal_string(1234567890), "1234567890");
    assert_eq!(trim("\u{3000} a b\t\n"), "a b");
}

#[test]
fn persisted_volume() {
    assert_eq!(parse_persisted_volume(" 42\n"), Ok(42));
    assert_eq!(parse_persisted_volume("101"), Err(PersistedVolumeError::OutOfRange(101)));
    assert_eq!(
        parse_persisted_volume("loud"),
        Err(PersistedVolumeError::Invalid(IntErrorKind::InvalidDigit))
    );
    for v in 0..=100u8 {
        assert_eq!(parse_persisted_volume(&volume_file_text(v)), Ok(v));
    }
    assert_eq!(volume_file_text(55), "55\n");
    assert_eq!(debounce_wait(None), Duration::zero());
    assert_eq!(debounce_wait(Some(Duration::new(1, 500_000_000))), Duration::new(3, 500_000_000));
    assert_eq!(debounce_wait(Some(Duration::from_secs(9))), Duration::zero());
    assert!(volume_needs_write(None, 3));
    assert!(!volume_needs_write(Some(3), 3));
    assert!(volume_needs_write(Some(4), 3));
}

#[test]
fn encoder_and_serial() {
    assert_eq!(encoder_delta("ENC:1", 2), Some(2));
    assert_eq!(encoder_delta("ENC:-1", 2), Some(-2));
    assert_eq!(encoder_delta("ENC:2", 2), None);
    assert_eq!(serial_line_delta(b" ENC:-1\r\n", 2), Some(-2));
    assert_eq!(serial_line_delta(b"ENC:1\xff", 2), None);
    let mut buf = b"ENC:1\r\nENC".to_vec();
    assert_eq!(take_line(&mut buf), Some(b"ENC:1\r".to_vec()));
    assert_eq!(take_line(&mut buf), Some(b"\n".to_vec()));
    assert_eq!(take_line(&mut buf), None);
    assert_eq!(buf, b"ENC".to_vec());
    let mut big = vec![b'x'; 513];
    cap_serial_buffer(&mut big);
    assert!(big.is_empty());
    let mut small = vec![b'x'; 512];
    cap_serial_buffer(&mut small);
    assert_eq!(small.len(), 512);
    assert!(saw_heartbeat(b"boot...LCD_FW_ALIVE\r\n"));
    assert!(!saw_heartbeat(b"LCD_FW_ALIV"));
}

#[test]
fn encoder_moves_volume_within_bounds() {
    assert_eq!(clamp_volume(99, 2), 100);
    assert_eq!(clamp_volume(1, -2), 0);
    assert_eq!(clamp_volume(50, 2), 52);
    let backend = MockBackend::new();
    let svc = CringeService::new(AppConfig::default(), backend.clone(), FallbackLanguageDetector);
    svc.set_volume(99).unwrap();
    let mut target = None;
    assert_eq!(adjust_volume_target(&svc, &mut target, 2).unwrap(), 100);
    assert_eq!(target, Some(100));
    assert_eq!(adjust_volume_target(&svc, &mut target, -2).unwrap(), 98);
    assert_eq!(record(&backend).volume, 98);
}

#[test]
fn audio_worker_speaks_in_english_by_default() {
    let backend = MockBackend::new();
    queue_speak(&backend, &AppConfig::default(), "a;b. c", None).unwrap();
    assert_eq!(
        record(&backend).spoken,
        vec![(s("ab"), s("en")), (s(" c"), s("en"))]
    );
}

#[test]
fn arm_detection() {
    assert!(is_arm_arch("arm"));
    assert!(is_arm_arch("aarch64"));
    assert!(!is_arm_arch("x86_64"));
}

#[test]
fn shell_rules() {
    assert_eq!(script_name(ScriptAction::Speak, true), "speak_arm.sh");
    assert_eq!(script_name(ScriptAction::Speak, false), "speak.sh");
    assert_eq!(script_name(ScriptAction::Stop, true), "kill.sh");
    assert_eq!(script_name(ScriptAction::GetVolume, false), "get_vol.sh");
    assert_eq!(script_name(ScriptAction::SetVolume, true), "set_vol_arm.sh");
    assert_eq!(script_name(ScriptAction::Play, false), "play.sh");
    assert_eq!(parse_volume_output(" 64\n"), Ok(64));
    assert_eq!(parse_volume_output("n/a"), Err(IntErrorKind::InvalidDigit));
    assert_eq!(mp3_stem("song.mp3"), Some(s("song")));
    assert_eq!(mp3_stem("a.b.mp3"), Some(s("a.b")));
    assert_eq!(mp3_stem(".mp3"), None);
    assert_eq!(mp3_stem("song.MP3"), None);
    assert_eq!(mp3_stem("song.wav"), None);
}

#[test]
fn names_are_sorted_like_strings() {
    let names = vec![s("zebra"), s("Ąb"), s("apple"), s("Zoo"), s("app"), s("apple")];
    let mut expected = names.clone();
    expected.sort();
    assert_eq!(sort_names(names), expected);
    let files = vec![s("b.mp3"), s("notes.txt"), s("a.mp3"), s(".mp3")];
    assert_eq!(audio_names(files), vec![s("a"), s("b")]);
}

#[test]
fn int_error_texts_match_std() {
    let e = "".parse::<u8>().unwrap_err().to_string();
    assert_eq!(IntErrorKind::Empty.description(), e);
    let e = "x".parse::<u8>().unwrap_err().to_string();
    assert_eq!(IntErrorKind::InvalidDigit.description(), e);
    let e = "256".parse::<u8>().unwrap_err().to_string();
    assert_eq!(IntErrorKind::PosOverflow.description(), e);
}

#[test]
fn sentences_rejoin_with_their_ends() {
    let text = "One. Two? Three! Four";
    let pieces = cringecast::service::smart_split(text, 200);
    let ends: Vec<char> = text.chars().filter(|c| ".?!".contains(*c)).collect();
    assert_eq!(pieces.len(), ends.len() + 1);
    let mut joined = pieces[0].clone();
    for (i, end) in ends.iter().enumerate() {
        joined.push(*end);
        joined.push_str(&pieces[i + 1]);
    }
    assert_eq!(joined, text);
}

#[test]
fn decimal_reads_back() {
    for n in [0u64, 9, 10, 99, 100, 255] {
        assert_eq!(parse_u8(&decimal_string(n)), Ok(n as u8));
    }
    assert_eq!(parse_usize(&decimal_string(u64::MAX)).ok(), Some(u64::MAX as usize));
}

#[test]
fn lex_order_is_total() {
    assert!(lex_le_exec("ab", "b"));
    assert!(!lex_le_exec("b", "ab"));
    assert!(lex_le_exec("ab", "ab"));
    assert!(lex_le_exec("", "a"));
    assert!(lex_le_exec("z", "ą"));
}

fn record(backend: &MockBackend) -> cringecast::platform::mock::MockState {
    let handle = backend.state();
    let st = handle.replace(cringecast::platform::mock::MockState::default());
    handle.set(st.clone());
    st
}

#[test]
fn worker_plays_sanitised_names() {
    let backend = MockBackend::new();
    cringecast::server::queue_play(&backend, "../etc", "pass$wd").unwrap();
    assert_eq!(record(&backend).played, vec![(s("..etc"), s("passwd"))]);
}

#[test]
fn worker_speaks_like_service_with_fallback_detector() {
    let config = AppConfig::default();
    let worker = MockBackend::new();
    queue_speak(&worker, &config, "Ahoj! Co tam?", None).unwrap();
    let served = MockBackend::new();
    let svc = CringeService::new(config, served.clone(), FallbackLanguageDetector);
    svc.speak("Ahoj! Co tam?", None).unwrap();
    assert_eq!(record(&worker).spoken, record(&served).spoken);
}

#[test]
fn mock_handle_writes_reach_backend() {
    let backend = MockBackend::new();
    let handle = backend.state();
    let mut st = handle.replace(cringecast::platform::mock::MockState::default());
    st.files.insert(s("memes"), vec![s("x")]);
    handle.set(st);
    let svc = CringeService::new(AppConfig::default(), backend.clone(), FallbackLanguageDetector);
    assert_eq!(svc.list_files().unwrap().get("memes"), Some(&vec![s("x")]));
}
