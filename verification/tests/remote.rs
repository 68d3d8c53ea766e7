use alexa_cli::config::Region;
use alexa_cli::remote::{
    build_announcement_sequence_json, build_speak_sequence_json, cookies_from_exchange,
    extract_cookies, extract_csrf, form_encode, full_cookie_header, next_csrf_step, parse_devices,
    plan_announce, plan_say, refresh_token, resolve_devices, set_auth, tld_for, CsrfStep, Device,
    RemoteError, RemoteState, after_behavior_post, after_device_fetch, SessionStep,
};
use serde_json::Value;

fn dev(name: &str, serial: &str, dtype: &str, cust: &str, online: bool) -> Device {
    Device {
        serial_number: serial.into(),
        device_type: dtype.into(),
        account_name: name.into(),
        customer_id: cust.into(),
        online,
        device_family: String::new(),
    }
}

#[test]
fn tld_mapping() {
    assert_eq!(tld_for(Region::Na), "com");
    assert_eq!(tld_for(Region::Eu), "co.uk");
    assert_eq!(tld_for(Region::Fe), "co.jp");
}

#[test]
fn announcement_sequence_shape() {
    let targets = vec![
        dev("Kitchen", "SN1", "TYPE1", "CUST", true),
        dev("Bedroom", "SN2", "TYPE2", "CUST", true),
    ];
    let s = build_announcement_sequence_json("hello world", "My Title", &targets);
    let v: Value = serde_json::from_str(&s).unwrap();
    assert_eq!(v["@type"], "com.amazon.alexa.behaviors.model.Sequence");
    assert_eq!(
        v["startNode"]["@type"],
        "com.amazon.alexa.behaviors.model.OpaquePayloadOperationNode"
    );
    assert_eq!(v["startNode"]["type"], "AlexaAnnouncement");
    let payload = &v["startNode"]["operationPayload"];
    assert_eq!(payload["content"][0]["speak"]["value"], "hello world");
    assert_eq!(payload["content"][0]["display"]["title"], "My Title");
    assert_eq!(payload["content"][0]["display"]["body"], "hello world");
    assert_eq!(payload["target"]["customerId"], "CUST");
    assert_eq!(payload["skillId"], "amzn1.ask.1p.routines.messaging");
    let serials: Vec<&str> = payload["target"]["devices"]
        .as_array()
        .unwrap()
        .iter()
        .map(|d| d["deviceSerialNumber"].as_str().unwrap())
        .collect();
    assert!(serials.contains(&"SN1"));
    assert!(serials.contains(&"SN2"));
}

#[test]
fn speak_sequence_shape() {
    let d = dev("Office", "SNX", "TYPEX", "CUSTX", true);
    let s = build_speak_sequence_json("speak this", &d);
    let v: Value = serde_json::from_str(&s).unwrap();
    assert_eq!(v["@type"], "com.amazon.alexa.behaviors.model.Sequence");
    assert_eq!(v["startNode"]["type"], "Alexa.Speak");
    assert_eq!(v["startNode"]["skillId"], "amzn1.ask.1p.saysomething");
    let payload = &v["startNode"]["operationPayload"];
    assert_eq!(payload["textToSpeak"], "speak this");
    assert_eq!(payload["deviceSerialNumber"], "SNX");
    assert_eq!(payload["deviceType"], "TYPEX");
    assert_eq!(payload["customerId"], "CUSTX");
    assert_eq!(payload["locale"], "en-US");
}

#[test]
fn resolve_all_returns_online_only() {
    let devices = vec![
        dev("Kitchen", "SN1", "T", "C", true),
        dev("Bedroom", "SN2", "T", "C", false),
    ];
    let r = resolve_devices(&devices, None, true).ok().unwrap();
    assert_eq!(r.len(), 1);
    assert_eq!(r[0].serial_number, "SN1");
}

#[test]
fn resolve_by_name_is_case_insensitive_substring() {
    let devices = vec![
        dev("Kitchen Echo", "SN1", "T", "C", true),
        dev("Bedroom Dot", "SN2", "T", "C", true),
    ];
    let r = resolve_devices(&devices, Some("kitchen"), false).ok().unwrap();
    assert_eq!(r.len(), 1);
    assert_eq!(r[0].serial_number, "SN1");
    assert!(resolve_devices(&devices, Some("garage"), false).is_err());
}

#[test]
fn resolve_without_name_or_all_errors() {
    let devices = vec![dev("Kitchen", "SN1", "T", "C", true)];
    assert!(resolve_devices(&devices, None, false).is_err());
}

#[test]
fn resolve_errors_say_why() {
    let devices = vec![dev("Kitchen", "SN1", "T", "C", false)];
    match resolve_devices(&devices, None, true) {
        Err(e @ RemoteError::NoOnlineDevices) => assert_eq!(
            e.message(),
            "no online Echo devices found — run `alexa devices` to list"
        ),
        _ => panic!("expected NoOnlineDevices"),
    }
    match resolve_devices(&devices, Some("garage"), false) {
        Err(e @ RemoteError::NoNameMatch { .. }) => assert_eq!(
            e.message(),
            "no device matches name 'garage' — run `alexa devices` to list available names"
        ),
        _ => panic!("expected NoNameMatch"),
    }
    match resolve_devices(&devices, None, false) {
        Err(e @ RemoteError::NoTarget) => assert_eq!(
            e.message(),
            "specify a device with --device <name> or target everything with --all"
        ),
        _ => panic!("expected NoTarget"),
    }
}

#[test]
fn resolved_devices_are_among_the_given_ones() {
    let devices = vec![
        dev("Kitchen Echo", "SN1", "T", "C", true),
        dev("Kitchen Dot", "SN2", "T", "C", false),
        dev("Bedroom", "SN3", "T", "C", true),
    ];
    let r = resolve_devices(&devices, Some("KITCHEN"), false).ok().unwrap();
    let serials: Vec<&str> = r.iter().map(|d| d.serial_number.as_str()).collect();
    assert_eq!(serials, vec!["SN1", "SN2"]);
}

#[test]
fn parse_devices_skips_serial_less_entries() {
    let json: Value = serde_json::from_str(
        r#"{
            "devices": [
                { "serialNumber": "SN1", "deviceType": "T1", "accountName": "Kitchen",
                  "deviceOwnerCustomerId": "CUST", "online": true },
                { "serialNumber": null, "deviceType": "APP", "accountName": "App", "online": false }
            ]
        }"#,
    )
    .unwrap();
    let devs = parse_devices(&json);
    assert_eq!(devs.len(), 1);
    assert_eq!(devs[0].account_name, "Kitchen");
    assert_eq!(devs[0].customer_id, "CUST");
    assert!(devs[0].online);
}

#[test]
fn extract_cookies_walks_nested_json() {
    let json: Value = serde_json::from_str(
        r#"{
            "response": { "tokens": { "cookies": { ".amazon.com": [
                {"Name":"at-main","Value":"AAA"},
                {"Name":"sess-at-main","Value":"BBB"}
            ]}}}
        }"#,
    )
    .unwrap();
    let c = extract_cookies(&json).unwrap();
    assert!(c.contains("at-main=AAA"));
    assert!(c.contains("sess-at-main=BBB"));
}

#[test]
fn extract_cookies_none_when_absent() {
    let json: Value = serde_json::from_str(r#"{ "response": { "error": "bad token" } }"#).unwrap();
    assert!(extract_cookies(&json).is_none());
}

#[test]
fn extract_csrf_finds_token() {
    assert_eq!(
        extract_csrf("foo=bar; csrf=12345; baz=qux"),
        Some("12345".to_string())
    );
    assert_eq!(extract_csrf("foo=bar"), None);
}

#[test]
fn form_encode_percent_encodes() {
    let s = form_encode(&[("app_name", "Amazon Alexa"), ("domain", ".amazon.com")]);
    assert!(s.contains("app_name=Amazon%20Alexa"));
    assert!(s.contains("domain=.amazon.com"));
}

#[test]
fn form_encode_exact() {
    assert_eq!(
        form_encode(&[("a b", "c&d"), ("e", "")]),
        "a%20b=c%26d&e="
    );
    assert_eq!(form_encode(&[]), "");
}

#[test]
fn csrf_read_back_from_the_full_cookie_header() {
    let state = RemoteState {
        refresh_token: None,
        tld: "com".into(),
        customer_id: None,
        cookies: Some("at-main=AAA; sess-at-main=BBB".into()),
        csrf: Some("777".into()),
    };
    let header = full_cookie_header(&state);
    assert_eq!(header, "at-main=AAA; sess-at-main=BBB; csrf=777");
    assert_eq!(extract_csrf(&header), Some("777".to_string()));
}

#[test]
fn set_auth_replaces_cookies_and_drops_csrf() {
    let mut state = RemoteState {
        refresh_token: Some("old".into()),
        tld: "co.uk".into(),
        customer_id: Some("C".into()),
        cookies: Some("a=1".into()),
        csrf: Some("9".into()),
    };
    set_auth(&mut state, None, Some("b=2".into()));
    assert_eq!(state.cookies.as_deref(), Some("b=2"));
    assert_eq!(state.csrf, None);
    assert_eq!(state.refresh_token.as_deref(), Some("old"));
    assert_eq!(state.tld, "co.uk");
    set_auth(&mut state, Some("Atzr|new".into()), None);
    assert_eq!(state.refresh_token.as_deref(), Some("Atzr|new"));
    assert_eq!(state.cookies.as_deref(), Some("b=2"));
}

#[test]
fn refresh_token_prefers_the_website_one() {
    let mut state = RemoteState {
        refresh_token: Some("web".into()),
        tld: "com".into(),
        customer_id: None,
        cookies: None,
        csrf: None,
    };
    let avs = alexa_cli::auth::Tokens {
        access_token: "A".into(),
        refresh_token: "avs".into(),
        obtained_at: 0,
    };
    assert_eq!(refresh_token(&state, Some(&avs)).ok(), Some("web".to_string()));
    state.refresh_token = None;
    assert_eq!(refresh_token(&state, Some(&avs)).ok(), Some("avs".to_string()));
    assert!(matches!(refresh_token(&state, None), Err(RemoteError::NoRemoteAuth)));
}

#[test]
fn cookie_exchange_reply_errors() {
    assert!(matches!(cookies_from_exchange("not json"), Err(RemoteError::ExchangeNotJson)));
    assert!(matches!(
        cookies_from_exchange(r#"{"response":{}}"#),
        Err(RemoteError::NoExchangeCookies)
    ));
}

#[test]
fn csrf_pages_are_tried_in_order() {
    assert!(matches!(next_csrf_step("com", 0, Some("x".into())), CsrfStep::Found(_)));
    match next_csrf_step("com", 0, None) {
        CsrfStep::Fetch(u) => assert_eq!(u, "https://alexa.amazon.com/api/bootstrap?version=0"),
        _ => panic!("expected Fetch"),
    }
    match next_csrf_step("co.uk", 1, None) {
        CsrfStep::Fetch(u) => assert_eq!(u, "https://alexa.amazon.co.uk/api/language"),
        _ => panic!("expected Fetch"),
    }
    assert!(matches!(next_csrf_step("com", 2, None), CsrfStep::GiveUp));
}

#[test]
fn plans_pick_their_targets() {
    let devices = vec![
        dev("Kitchen", "SN1", "T1", "C", true),
        dev("Office", "SN2", "T2", "C", true),
    ];
    let s = plan_say(&devices, "hi", "office").ok().unwrap();
    let v: Value = serde_json::from_str(&s).unwrap();
    assert_eq!(v["startNode"]["operationPayload"]["deviceSerialNumber"], "SN2");
    let a = plan_announce(&devices, "hi", "T", None, true).ok().unwrap();
    let v: Value = serde_json::from_str(&a).unwrap();
    assert_eq!(
        v["startNode"]["operationPayload"]["target"]["devices"].as_array().unwrap().len(),
        2
    );
    assert!(plan_say(&devices, "hi", "garage").is_err());
}

#[test]
fn session_cookies_are_required_and_split() {
    let mut state = RemoteState::default();
    match alexa_cli::remote::session_cookie_pieces(&state) {
        Err(e @ RemoteError::NoSessionCookies) => assert_eq!(
            e.message(),
            "no website cookies; run `alexa announce-auth --refresh-token ...`"
        ),
        _ => panic!("expected NoSessionCookies"),
    }
    state.cookies = Some("a=1; b=2".into());
    let pieces = alexa_cli::remote::session_cookie_pieces(&state).ok().unwrap();
    assert_eq!(pieces, vec!["a=1".to_string(), "b=2".to_string()]);
}

#[test]
fn default_state_uses_dot_com() {
    let s = RemoteState::default();
    assert_eq!(s.tld, "com");
    assert!(s.cookies.is_none() && s.csrf.is_none() && s.refresh_token.is_none());
    assert!(RemoteState::path().ends_with(".alexa/alexa_remote.json"));
}

#[test]
fn announce_to_all_skips_fire_tvs_tablets_and_phones() {
    let mut tv = dev("Living Room TV", "SN1", "T", "C", true);
    tv.device_family = "FIRE_TV".into();
    let mut tablet = dev("Fire HD", "SN2", "T", "C", true);
    tablet.device_family = "TABLET".into();
    let mut phone = dev("My Phone", "SN3", "T", "C", true);
    phone.device_family = "VOX".into();
    let mut echo = dev("Kitchen", "SN4", "T", "C", true);
    echo.device_family = "ECHO".into();
    let mut sonos = dev("Sonos", "SN5", "T", "C", true);
    sonos.device_family = "THIRD_PARTY_AVS_MEDIA_DISPLAY".into();
    let devices = vec![tv.clone(), tablet.clone(), phone.clone(), echo, sonos];
    // resolving with `all` keeps every online device
    let r = resolve_devices(&devices, None, true).ok().unwrap();
    assert_eq!(r.len(), 5);
    // the announcement goes to the speakers only
    let a = plan_announce(&devices, "hi", "T", None, true).ok().unwrap();
    let v: Value = serde_json::from_str(&a).unwrap();
    let serials: Vec<&str> = v["startNode"]["operationPayload"]["target"]["devices"]
        .as_array()
        .unwrap()
        .iter()
        .map(|d| d["deviceSerialNumber"].as_str().unwrap())
        .collect();
    assert_eq!(serials, vec!["SN4", "SN5"]);
    assert!(matches!(
        plan_announce(&[tv, tablet, phone], "hi", "T", None, true),
        Err(RemoteError::NoOnlineDevices)
    ));
}

#[test]
fn resolve_all_keeps_an_online_fire_tv() {
    let mut tv = dev("Living Room TV", "SN1", "T", "C", true);
    tv.device_family = "FIRE_TV".into();
    let r = resolve_devices(&[tv], None, true).ok().unwrap();
    assert_eq!(r[0].serial_number, "SN1");
}

#[test]
fn parse_devices_reads_the_family() {
    let json: Value = serde_json::from_str(
        r#"{"devices":[{"serialNumber":"SN1","deviceFamily":"FIRE_TV","online":true}]}"#,
    )
    .unwrap();
    let devs = parse_devices(&json);
    assert_eq!(devs[0].device_family, "FIRE_TV");
}

#[test]
fn sessions_are_retried_once() {
    assert_eq!(after_device_fetch(false, true), SessionStep::Done);
    assert_eq!(after_device_fetch(false, false), SessionStep::ClearAndRetry);
    assert_eq!(after_device_fetch(true, false), SessionStep::Fail);
    assert_eq!(after_behavior_post(false, 200), SessionStep::Done);
    assert_eq!(after_behavior_post(false, 401), SessionStep::ClearAndRetry);
    assert_eq!(after_behavior_post(false, 403), SessionStep::ClearAndRetry);
    assert_eq!(after_behavior_post(true, 403), SessionStep::Fail);
    assert_eq!(after_behavior_post(false, 500), SessionStep::Fail);
}
