use std::collections::BTreeMap;

use cringecast::platform::mock::{FixedLanguageDetector, MockBackend};
use cringecast::service::{
    sanitize, smart_split, AccessLevel, AppConfig, CringeError, CringeService,
    FallbackLanguageDetector, LanguageDetector, TeapotMode, TeapotRequest,
};
use cringecast::text::can_smart_split;
use cringecast::time::{Duration, Timestamp};

fn at(secs: u64) -> Timestamp {
    Timestamp::unix_epoch().add_duration(Duration::from_secs(secs))
}

fn service() -> (CringeService<MockBackend, FixedLanguageDetector>, MockBackend) {
    let backend = MockBackend::new();
    let mut config = AppConfig::default();
    config.super_secret_key = "s3cret".to_string();
    let svc = CringeService::new(config, backend.clone(), FixedLanguageDetector::new("pl"));
    (svc, backend)
}

#[test]
fn sanitize_strips_dangerous_chars() {
    let out = sanitize("hello$() rm -rf /\\");
    assert_eq!(out, "hello rm -rf ");
}

#[test]
fn split_over_limit() {
    let text = "a".repeat(210);
    let split = smart_split(&text, 200);
    assert_eq!(split[0].len(), 200);
}

#[test]
fn teapot_escalates_on_repeat() {
    let mut tm = TeapotMode::default();
    let now = at(10_000);

    tm.set(now, false);
    let first = tm.get_remaining(now);
    assert_eq!(first, Duration::from_secs(15 * 60));

    let later = now.add_duration(Duration::from_secs(5));
    tm.set(later, false);
    let second = tm.get_remaining(later);
    assert_eq!(second, Duration::from_secs(4 * 60 * 60));
}

#[test]
fn sanitize_keeps_polish_and_cjk() {
    assert_eq!(sanitize("Zażółć gęślą jaźń!"), "Zażółć gęślą jaźń!");
    assert_eq!(sanitize("你好;`ls`"), "你好ls");
    assert_eq!(sanitize("a|b&c>d<e\"f"), "abcdef");
}

#[test]
fn sanitize_is_idempotent() {
    let once = sanitize("x$y 'z' {w} ó_ö");
    assert_eq!(sanitize(&once), once);
    assert_eq!(once, "xy 'z' w ó_");
}

#[test]
fn smart_split_keeps_empty_sentences() {
    let split = smart_split("Hi. How are you?!", 200);
    assert_eq!(split, vec!["Hi", " How are you", "", ""]);
    assert_eq!(smart_split("", 10), vec![""]);
}

#[test]
fn smart_split_cuts_each_sentence() {
    let split = smart_split("abcdef.gh", 3);
    assert_eq!(split, vec!["abc", "gh"]);
}

#[test]
fn smart_split_cuts_on_char_boundary() {
    // 'ż' takes two bytes: "aż" is three bytes, a cut after three is fine.
    assert!(can_smart_split("ażb", 3));
    assert_eq!(smart_split("ażb", 3), vec!["aż"]);
    // A cut after two bytes would split 'ż'.
    assert!(!can_smart_split("ażb", 2));
    assert!(can_smart_split("ażb", 4));
}

#[test]
fn teapot_short_then_off() {
    let mut tm = TeapotMode::default();
    let now = at(100_000);
    assert!(!tm.in_teapot_mode(now));
    tm.set(now, false);
    assert!(tm.in_teapot_mode(now));
    assert!(tm.in_teapot_mode(at(100_000 + 899)));
    assert!(!tm.in_teapot_mode(at(100_000 + 900)));
    assert_eq!(tm.get_remaining(at(100_000 + 900)), Duration::zero());
    tm.disable();
    assert!(!tm.in_teapot_mode(now));
    assert_eq!(tm.get_remaining(now), Duration::zero());
}

#[test]
fn teapot_no_escalation_after_window() {
    let mut tm = TeapotMode::default();
    let now = at(100_000);
    tm.set(now, false);
    // 15 minutes of mode plus 20 minutes of window have passed.
    let later = at(100_000 + 900 + 1200);
    tm.set(later, false);
    assert_eq!(tm.get_remaining(later), Duration::from_secs(900));
    // Just inside the window it escalates.
    let mut tm2 = TeapotMode::default();
    tm2.set(now, false);
    let inside = at(100_000 + 900 + 1199);
    tm2.set(inside, false);
    assert_eq!(tm2.get_remaining(inside), Duration::from_secs(4 * 3600));
}

#[test]
fn teapot_permanent_lasts_69_days() {
    let mut tm = TeapotMode::default();
    let now = at(1_000);
    tm.set(now, true);
    assert_eq!(tm.get_remaining(now), Duration::from_secs(69 * 24 * 3600));
}

#[test]
fn teapot_remaining_counts_nanoseconds() {
    let mut tm = TeapotMode::default();
    let now = Timestamp::new(50_000, 250_000_000);
    tm.set(now, false);
    let later = Timestamp::new(50_100, 0);
    let left = tm.get_remaining(later);
    assert_eq!(left, Duration::new(800, 250_000_000));
    assert_eq!(left.as_secs(), 800);
    assert_eq!(left.subsec_nanos(), 250_000_000);
}

#[test]
fn resolve_access_by_key() {
    let (svc, _) = service();
    assert_eq!(svc.resolve_access(Some("s3cret")), AccessLevel::Privileged);
    assert_eq!(svc.resolve_access(Some("s3cret ")), AccessLevel::Public);
    assert_eq!(svc.resolve_access(None), AccessLevel::Public);
}

#[test]
fn guard_refuses_public_in_teapot_mode() {
    let (mut svc, backend) = service();
    let now = at(500_000);
    assert!(svc.guard_request(AccessLevel::Public, now, false).is_ok());
    svc.teapot_control(TeapotRequest::On, AccessLevel::Public, now).unwrap();
    let later = at(500_000 + 60);
    match svc.guard_request(AccessLevel::Public, later, true) {
        Err(CringeError::Forbidden(msg)) => {
            assert_eq!(msg, "I'm sorry, I'm a teapot for next 840s")
        }
        other => panic!("unexpected {:?}", other),
    }
    // A privileged critical request passes and sets the privileged volume.
    assert!(svc.guard_request(AccessLevel::Privileged, later, true).is_ok());
    assert_eq!(record(&backend).volume, 80);
    // Switching the mode off lets public requests through again.
    assert_eq!(
        svc.teapot_control(TeapotRequest::Off, AccessLevel::Public, later).unwrap(),
        "Teapot mode disabled"
    );
    assert!(svc.guard_request(AccessLevel::Public, later, false).is_ok());
}

#[test]
fn permanent_teapot_needs_privilege() {
    let (mut svc, _) = service();
    let now = at(10);
    match svc.teapot_control(TeapotRequest::Permanent, AccessLevel::Public, now) {
        Err(e) => {
            assert_eq!(e.status_code(), 418);
            assert_eq!(e.message(), "Permanent teapot mode requires privileged access");
        }
        Ok(_) => panic!("public permanent teapot must be refused"),
    }
    assert!(!svc.teapot_status(now));
    assert_eq!(
        svc.teapot_control(TeapotRequest::Permanent, AccessLevel::Privileged, now).unwrap(),
        "I'm permanently teapot now."
    );
    assert!(svc.teapot_status(at(10 + 68 * 24 * 3600)));
    assert_eq!(
        svc.teapot_control(TeapotRequest::On, AccessLevel::Public, now).unwrap(),
        "Teapot mode set"
    );
}

#[test]
fn set_volume_rejects_above_100() {
    let (svc, backend) = service();
    match svc.set_volume(101) {
        Err(e) => {
            assert_eq!(e.status_code(), 400);
            assert_eq!(e.message(), "invalid volume requested: 101%");
        }
        Ok(()) => panic!("volume above 100 must be refused"),
    }
    assert!(svc.set_volume(100).is_ok());
    assert_eq!(svc.get_volume().unwrap(), 100);
    assert_eq!(record(&backend).volume, 100);
}

#[test]
fn speak_sanitises_and_uses_detector() {
    let (svc, backend) = service();
    svc.speak("Hello$ world. Bye!", None).unwrap();
    let st = record(&backend);
    assert_eq!(
        st.spoken,
        vec![
            ("Hello world".to_string(), "pl".to_string()),
            (" Bye".to_string(), "pl".to_string()),
            ("".to_string(), "pl".to_string()),
        ]
    );
    svc.speak("x", Some("e$n")).unwrap();
    assert_eq!(record(&backend).spoken.last().unwrap(), &("x".to_string(), "en".to_string()));
}

#[test]
fn speak_takes_at_most_max_sentences() {
    let (mut svc, backend) = service();
    svc.config.max_sentence_len = 2;
    svc.speak("a.b.c.d", None).unwrap();
    assert_eq!(record(&backend).spoken.len(), 2);
}

#[test]
fn play_stop_and_list() {
    let mut files = BTreeMap::new();
    files.insert("memes".to_string(), vec!["a".to_string(), "b".to_string()]);
    let backend = MockBackend::with_files(files.clone());
    let svc = CringeService::new(AppConfig::default(), backend.clone(), FallbackLanguageDetector);
    svc.play_file("me/mes", "../a").unwrap();
    svc.stop().unwrap();
    let st = record(&backend);
    assert_eq!(st.played, vec![("memes".to_string(), "..a".to_string())]);
    assert_eq!(st.stopped, 1);
    assert_eq!(svc.list_files().unwrap(), files);
}

#[test]
fn fallback_detector_says_english() {
    assert_eq!(FallbackLanguageDetector.detect("bonjour"), "en");
    assert_eq!(FixedLanguageDetector::new("de").detect("x"), "de");
}

#[test]
fn default_config_values() {
    let c = AppConfig::default();
    assert_eq!(c.max_sentence_len, 16);
    assert_eq!(c.max_api_str_len, 200);
    assert_eq!(c.privileged_volume, 80);
    assert_eq!(c.super_secret_key, "change-me");
}

#[test]
fn backend_error_status() {
    let e = CringeError::Backend("boom".to_string());
    assert_eq!(e.status_code(), 500);
    let r: Result<(), CringeError> = cringecast::service::from_backend(Err("boom".to_string()));
    match r {
        Err(CringeError::Backend(m)) => assert_eq!(m, "boom"),
        _ => panic!("expected a backend error"),
    }
}

fn record(backend: &MockBackend) -> cringecast::platform::mock::MockState {
    let handle = backend.state();
    let st = handle.replace(cringecast::platform::mock::MockState::default());
    handle.set(st.clone());
    st
}

#[test]
fn guard_refusal_during_first_teapot_minute() {
    let mut svc = CringeService::new(AppConfig::default(), MockBackend::new(), FallbackLanguageDetector);
    let now = at(10_000);
    svc.teapot_control(TeapotRequest::On, AccessLevel::Public, now).unwrap();
    match svc.guard_request(AccessLevel::Public, now, false) {
        Err(CringeError::Forbidden(m)) => assert_eq!(m, "I'm sorry, I'm a teapot for next 900s"),
        other => panic!("unexpected {:?}", other),
    }
}
