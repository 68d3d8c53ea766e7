use alexa_cli::cache::key_for;
use alexa_cli::cli::{
    announce_to_all, announcement_title, apply_overrides, artifacts_dir, ask_result_json,
    check_line, device_line, prompt_answer, prompt_text, stdin_text, text_source, AskAction,
    AskEvent, AskPhase, AskState, Cli, TextSource, doctor_step, DoctorAction, DoctorEvent, DoctorStage,
};
use alexa_cli::config::{Config, Region, Voice};
use alexa_cli::remote::Device;

fn bare_cli() -> Cli {
    Cli {
        text: None,
        command: None,
        verbose: false,
        region: None,
        voice: None,
        model: None,
        keep_artifacts: false,
        output: None,
        json: false,
        no_cache: false,
    }
}

#[test]
fn overrides_change_only_what_is_given() {
    let mut cfg = Config::default();
    cfg.client_id = "id".into();
    let mut cli = bare_cli();
    cli.region = Some("EU".into());
    cli.voice = Some("ESPEAK".into());
    apply_overrides(&cli, &mut cfg);
    assert!(matches!(cfg.region, Region::Eu));
    assert!(matches!(cfg.voice, Voice::Espeak));
    assert_eq!(cfg.model, "base.en");
    assert_eq!(cfg.client_id, "id");
    let mut cli = bare_cli();
    cli.voice = Some("anything".into());
    cli.model = Some("tiny.en".into());
    apply_overrides(&cli, &mut cfg);
    assert!(matches!(cfg.voice, Voice::Piper));
    assert!(matches!(cfg.region, Region::Eu));
    assert_eq!(cfg.model, "tiny.en");
}

#[test]
fn text_argument_sources() {
    assert!(matches!(text_source(&None), TextSource::Help));
    assert!(matches!(text_source(&Some("-".into())), TextSource::Stdin));
    match text_source(&Some("what time is it".into())) {
        TextSource::Given(t) => assert_eq!(t, "what time is it"),
        _ => panic!("expected the text itself"),
    }
    assert_eq!(stdin_text("  hello there \n"), "hello there");
}

#[test]
fn announce_defaults() {
    assert!(announce_to_all(false, &None));
    assert!(announce_to_all(true, &Some("x".into())));
    assert!(!announce_to_all(false, &Some("x".into())));
    assert_eq!(announcement_title(&None), "Announcement");
    assert_eq!(announcement_title(&Some("T".into())), "T");
}

#[test]
fn listing_and_report_lines() {
    let d = Device {
        serial_number: "SN1".into(),
        device_type: "T".into(),
        account_name: "Kitchen".into(),
        customer_id: "C".into(),
        online: false,
        device_family: String::new(),
    };
    assert_eq!(device_line(&d), "Kitchen  [offline]  SN1");
    assert_eq!(check_line("config present", true, "x"), "  [ok] config present");
    assert_eq!(
        check_line("tokens present", false, "run `alexa login`"),
        "  [!!] tokens present — run `alexa login`"
    );
    assert_eq!(prompt_text("Client ID", "abc"), "Client ID [abc]: ");
    assert_eq!(prompt_answer("abc", "  \n"), "abc");
    assert_eq!(prompt_answer("abc", " xyz \n"), "xyz");
}

#[test]
fn json_result_has_sorted_keys() {
    assert_eq!(ask_result_json("It's \"noon\""), r#"{"result":"It's \"noon\"","success":true}"#);
    let v: serde_json::Value = serde_json::from_str(&ask_result_json("hi")).unwrap();
    assert_eq!(v["success"], true);
    assert_eq!(v["result"], "hi");
}

#[test]
fn artifacts_go_where_asked() {
    let mut cli = bare_cli();
    assert_eq!(artifacts_dir(&cli), None);
    cli.keep_artifacts = true;
    assert_eq!(artifacts_dir(&cli), Some(".".to_string()));
    cli.output = Some("/tmp/out".into());
    assert_eq!(artifacts_dir(&cli), Some("/tmp/out".to_string()));
}

#[test]
fn round_trip_with_cache_miss_stores_the_transcript() {
    let cli = bare_cli();
    let cfg = Config::default();
    let (s, a) = AskState::start(&cli, &cfg);
    assert!(matches!(a, AskAction::Synthesize));
    let (s, a) = s.step(AskEvent::Synthesized);
    assert!(matches!(a, AskAction::Recognize { force_refresh: false }));
    let (s, a) = s.step(AskEvent::RecognizeFailed);
    assert!(matches!(a, AskAction::Recognize { force_refresh: true }));
    let (s, a) = s.step(AskEvent::Recognized(vec![1, 2, 3]));
    match a {
        AskAction::LookUp { key, artifacts_dir } => {
            assert_eq!(key, key_for(&[1, 2, 3]));
            assert_eq!(artifacts_dir, None);
        }
        _ => panic!("expected a cache lookup"),
    }
    let (s, a) = s.step(AskEvent::CacheLooked(None));
    assert!(matches!(a, AskAction::Transcribe { artifacts_dir: None }));
    let (s, a) = s.step(AskEvent::Transcribed("noon".into()));
    match a {
        AskAction::Store { key, transcript } => {
            assert_eq!(key, key_for(&[1, 2, 3]));
            assert_eq!(transcript, "noon");
        }
        _ => panic!("expected a cache store"),
    }
    let (s, a) = s.step(AskEvent::Stored);
    match a {
        AskAction::Finish { answer } => assert_eq!(answer, "noon"),
        _ => panic!("expected the answer"),
    }
    assert_eq!(s.phase, AskPhase::Finished);
}

#[test]
fn round_trip_cache_hit_skips_transcription() {
    let cli = bare_cli();
    let cfg = Config::default();
    let (s, _) = AskState::start(&cli, &cfg);
    let (s, _) = s.step(AskEvent::Synthesized);
    let (s, _) = s.step(AskEvent::Recognized(vec![9]));
    let (s, a) = s.step(AskEvent::CacheLooked(Some("cached".into())));
    match a {
        AskAction::Finish { answer } => assert_eq!(answer, "cached"),
        _ => panic!("expected the cached answer"),
    }
    // nothing more happens once finished
    let (_, a) = s.step(AskEvent::Transcribed("late".into()));
    assert!(matches!(a, AskAction::Ignore));
}

#[test]
fn round_trip_without_cache_and_second_failure() {
    let mut cli = bare_cli();
    cli.no_cache = true;
    cli.output = Some("out".into());
    let cfg = Config::default();
    let (s, _) = AskState::start(&cli, &cfg);
    let (s, _) = s.step(AskEvent::Synthesized);
    let (s2, a) = s.step(AskEvent::Recognized(vec![4]));
    match a {
        AskAction::Transcribe { artifacts_dir } => assert_eq!(artifacts_dir, Some("out".into())),
        _ => panic!("expected transcription"),
    }
    let (_, a) = s2.step(AskEvent::Transcribed("t".into()));
    assert!(matches!(a, AskAction::Finish { .. }));

    let (s, _) = AskState::start(&cli, &cfg);
    let (s, _) = s.step(AskEvent::Synthesized);
    let (s, _) = s.step(AskEvent::RecognizeFailed);
    let (s, a) = s.step(AskEvent::RecognizeFailed);
    assert!(matches!(a, AskAction::Fail));
    assert_eq!(s.phase, AskPhase::Failed);
}

#[test]
fn doctor_reports_each_check_and_runs_the_round_trip_last() {
    let (s, lines, a) = doctor_step(DoctorStage::Config, DoctorEvent::ConfigChecked { complete: true });
    assert_eq!(lines, vec!["  [ok] config present".to_string()]);
    assert!(matches!(a, DoctorAction::LoadTokens));
    let (s, lines, a) = doctor_step(s, DoctorEvent::TokensChecked { present: true });
    assert_eq!(lines, vec!["  [ok] tokens present".to_string()]);
    assert!(matches!(a, DoctorAction::GetAccessToken));
    let (s, lines, a) = doctor_step(s, DoctorEvent::AccessChecked { error: None });
    assert_eq!(
        lines,
        vec![
            "  [ok] access token valid".to_string(),
            "\nRunning a live round-trip: \"what time is it\"".to_string()
        ]
    );
    match a {
        DoctorAction::RoundTrip { text } => assert_eq!(text, "what time is it"),
        _ => panic!("expected the round trip"),
    }
    let (s, lines, a) = doctor_step(s, DoctorEvent::RoundTripDone { result: Ok("noon".into()) });
    assert_eq!(
        lines,
        vec![
            "  [ok] round-trip".to_string(),
            "\nAlexa said: noon".to_string(),
            "\nAll good. ✅".to_string()
        ]
    );
    assert!(matches!(a, DoctorAction::Finish));
    assert_eq!(s, DoctorStage::Done);
}

#[test]
fn doctor_stops_at_the_first_failed_check() {
    let (s, lines, a) =
        doctor_step(DoctorStage::Config, DoctorEvent::ConfigChecked { complete: false });
    assert_eq!(
        lines,
        vec!["  [!!] config present — run `alexa configure` to set Client ID / Secret / Product ID"
            .to_string()]
    );
    assert!(matches!(a, DoctorAction::Finish));
    assert_eq!(s, DoctorStage::Done);
    let (_, lines, a) = doctor_step(DoctorStage::Tokens, DoctorEvent::TokensChecked { present: false });
    assert_eq!(lines, vec!["  [!!] tokens present — run `alexa login`".to_string()]);
    assert!(matches!(a, DoctorAction::Finish));
    let (_, lines, _) = doctor_step(
        DoctorStage::AccessToken,
        DoctorEvent::AccessChecked { error: Some("expired".into()) },
    );
    assert_eq!(lines, vec!["  [!!] access token valid — expired".to_string()]);
    let (_, lines, _) =
        doctor_step(DoctorStage::RoundTrip, DoctorEvent::RoundTripDone { result: Err("boom".into()) });
    assert_eq!(
        lines,
        vec![
            "  [!!] round-trip — boom".to_string(),
            "\nThe pipeline failed above — see the message for the next step.".to_string()
        ]
    );
    // an event out of turn ends the report without a line
    let (s, lines, a) = doctor_step(DoctorStage::Config, DoctorEvent::TokensChecked { present: true });
    assert!(lines.is_empty());
    assert!(matches!(a, DoctorAction::Finish));
    assert_eq!(s, DoctorStage::Done);
}
