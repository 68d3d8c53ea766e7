use alexa_cli::avs::{
    build_recognize_multipart, extract_speak_audio, parse_multipart_related,
    read_multipart_related, recognize_event_json, status_error, synchronize_state_json, AvsError,
    MultipartRead, Part,
};

#[test]
fn recognize_event_has_required_fields() {
    let j = recognize_event_json("mid-1", "drid-1");
    let v: serde_json::Value = serde_json::from_str(&j).unwrap();
    assert_eq!(v["event"]["header"]["namespace"], "SpeechRecognizer");
    assert_eq!(v["event"]["header"]["name"], "Recognize");
    assert_eq!(v["event"]["header"]["messageId"], "mid-1");
    assert_eq!(v["event"]["header"]["dialogRequestId"], "drid-1");
    assert_eq!(v["event"]["payload"]["profile"], "CLOSE_TALK");
    assert_eq!(v["event"]["payload"]["format"], "AUDIO_L16_RATE_16000_CHANNELS_1");
    assert_eq!(v["event"]["payload"]["initiator"]["type"], "TAP");
}

#[test]
fn synchronize_state_is_valid() {
    let j = synchronize_state_json("mid-2");
    let v: serde_json::Value = serde_json::from_str(&j).unwrap();
    assert_eq!(v["event"]["header"]["namespace"], "System");
    assert_eq!(v["event"]["header"]["name"], "SynchronizeState");
    assert!(v["context"].is_array());
}

#[test]
fn events_escape_their_identifiers() {
    let j = recognize_event_json("a\"b", "c\\d");
    let v: serde_json::Value = serde_json::from_str(&j).unwrap();
    assert_eq!(v["event"]["header"]["messageId"], "a\"b");
    assert_eq!(v["event"]["header"]["dialogRequestId"], "c\\d");
}

#[test]
fn multipart_body_has_both_parts_and_raw_audio() {
    let body = build_recognize_multipart("{\"event\":true}", &[0xDE, 0xAD, 0xBE, 0xEF], "BOUNDARY");
    let text = String::from_utf8_lossy(&body);
    assert!(text.contains("--BOUNDARY\r\n"));
    assert!(text.contains("Content-Disposition: form-data; name=\"metadata\""));
    assert!(text.contains("Content-Type: application/json"));
    assert!(text.contains("Content-Disposition: form-data; name=\"audio\""));
    assert!(text.contains("Content-Type: application/octet-stream"));
    assert!(text.ends_with("--BOUNDARY--\r\n"));
    // raw audio bytes present verbatim:
    assert!(body.windows(4).any(|w| w == [0xDE, 0xAD, 0xBE, 0xEF]));
}

fn make_fixture() -> (String, Vec<u8>) {
    let boundary = "RESP";
    let directive = r#"{"directive":{"header":{"name":"Speak","namespace":"SpeechSynthesizer"},"payload":{"format":"AUDIO_MPEG","url":"cid:audio-123"}}}"#;
    let mp3 = vec![0xFF, 0xFB, 0x10, 0x00, 1, 2, 3, 4]; // fake mp3 bytes
    let mut body = Vec::new();
    let push = |b: &mut Vec<u8>, s: &str| b.extend_from_slice(s.as_bytes());
    push(&mut body, &format!("--{boundary}\r\n"));
    push(&mut body, "Content-Type: application/json; charset=UTF-8\r\n\r\n");
    push(&mut body, directive);
    push(&mut body, "\r\n");
    push(&mut body, &format!("--{boundary}\r\n"));
    push(&mut body, "Content-Type: application/octet-stream\r\n");
    push(&mut body, "Content-ID: audio-123\r\n\r\n");
    body.extend_from_slice(&mp3);
    push(&mut body, "\r\n");
    push(&mut body, &format!("--{boundary}--\r\n"));
    (format!("multipart/related; boundary={boundary}"), body)
}

#[test]
fn parses_all_parts() {
    let (ct, body) = make_fixture();
    let parts = parse_multipart_related(&ct, &body).ok().unwrap();
    assert_eq!(parts.len(), 2);
}

#[test]
fn extracts_speak_mp3_via_cid() {
    let (ct, body) = make_fixture();
    let parts = parse_multipart_related(&ct, &body).ok().unwrap();
    let mp3 = extract_speak_audio(&parts).ok().unwrap();
    assert_eq!(mp3, vec![0xFF, 0xFB, 0x10, 0x00, 1, 2, 3, 4]);
}

#[test]
fn extract_errors_when_no_speak() {
    let parts = vec![Part { headers: vec![], body: b"x".to_vec() }];
    assert!(extract_speak_audio(&parts).is_err());
}

#[test]
fn parts_keep_headers_and_content() {
    let (ct, body) = make_fixture();
    let parts = parse_multipart_related(&ct, &body).ok().unwrap();
    assert_eq!(parts[0].header("content-type"), Some("application/json; charset=UTF-8"));
    assert_eq!(parts[1].header("Content-ID"), Some("audio-123"));
    assert_eq!(parts[1].header("X-Missing"), None);
    assert_eq!(parts[1].body, vec![0xFF, 0xFB, 0x10, 0x00, 1, 2, 3, 4]);
}

#[test]
fn quoted_boundary_is_understood() {
    let (_, body) = make_fixture();
    let parts = parse_multipart_related("multipart/related; BOUNDARY=\"RESP\"; type=x", &body)
        .ok()
        .unwrap();
    assert_eq!(parts.len(), 2);
}

#[test]
fn content_type_without_boundary_is_an_error() {
    match parse_multipart_related("multipart/related", b"--x\r\n") {
        Err(e @ AvsError::NoBoundary { .. }) => {
            assert_eq!(e.message(), "no boundary in content-type: multipart/related")
        }
        _ => panic!("expected NoBoundary"),
    }
}

#[test]
fn malformed_parts_are_errors() {
    let ct = "multipart/related; boundary=B";
    match parse_multipart_related(ct, b"--B\r\nContent-Type: x\r\n") {
        Err(e @ AvsError::NoHeaderTerminator) => {
            assert_eq!(e.message(), "malformed part: no header terminator")
        }
        _ => panic!("expected NoHeaderTerminator"),
    }
    match parse_multipart_related(ct, b"--B\r\nContent-Type: x\r\n\r\nabc") {
        Err(e @ AvsError::NoClosingBoundary) => {
            assert_eq!(e.message(), "malformed part: no closing boundary")
        }
        _ => panic!("expected NoClosingBoundary"),
    }
}

#[test]
fn body_without_boundary_has_no_parts() {
    let parts = parse_multipart_related("multipart/related; boundary=B", b"nothing here")
        .ok()
        .unwrap();
    assert!(parts.is_empty());
}

#[test]
fn empty_part_directly_before_boundary_is_told_apart() {
    let body = b"--B\r\nContent-Type: x\r\n\r\n--B--\r\n";
    assert!(matches!(
        read_multipart_related("multipart/related; boundary=B", body),
        MultipartRead::Inverted
    ));
}

#[test]
fn speak_without_matching_attachment_is_an_error() {
    let directive = br#"{"directive":{"header":{"namespace":"SpeechSynthesizer","name":"Speak"},"payload":{"url":"cid:zzz"}}}"#;
    let parts = vec![
        Part {
            headers: vec![("Content-Type".to_string(), "application/json".to_string())],
            body: directive.to_vec(),
        },
        Part {
            headers: vec![("Content-ID".to_string(), "<other>".to_string())],
            body: vec![1, 2],
        },
    ];
    match extract_speak_audio(&parts) {
        Err(e @ AvsError::NoMatchingAudio { .. }) => {
            assert_eq!(e.message(), "no audio attachment matching cid:zzz")
        }
        _ => panic!("expected NoMatchingAudio"),
    }
}

#[test]
fn content_id_in_angle_brackets_matches() {
    let directive = br#"{"directive":{"header":{"namespace":"SpeechSynthesizer","name":"Speak"},"payload":{"url":"cid:abc"}}}"#;
    let parts = vec![
        Part {
            headers: vec![("Content-Type".to_string(), "application/json".to_string())],
            body: directive.to_vec(),
        },
        Part {
            headers: vec![("Content-ID".to_string(), "<abc>".to_string())],
            body: vec![9, 8, 7],
        },
    ];
    assert_eq!(extract_speak_audio(&parts).ok().unwrap(), vec![9, 8, 7]);
}

#[test]
fn avs_statuses() {
    assert!(status_error(200, b"").is_none());
    assert_eq!(
        status_error(204, b"").unwrap().message(),
        "Alexa returned no response (204) — try rephrasing"
    );
    assert_eq!(
        status_error(403, b"").unwrap().message(),
        "403 from AVS — token invalid/expired or wrong region (try `alexa login` / --region)"
    );
    assert_eq!(
        status_error(400, b"bad audio").unwrap().message(),
        "400 from AVS — bad request/audio format: bad audio"
    );
    assert_eq!(
        status_error(500, b"oops").unwrap().message(),
        "unexpected AVS status 500: oops"
    );
}

#[test]
fn no_speak_directive_message() {
    let parts = vec![Part {
        headers: vec![("Content-Type".to_string(), "application/json".to_string())],
        body: br#"{"directive":{"header":{"name":"Expect"}}}"#.to_vec(),
    }];
    match extract_speak_audio(&parts) {
        Err(e @ AvsError::NoSpeakDirective) => {
            assert_eq!(e.message(), "no SpeechSynthesizer.Speak directive in response")
        }
        _ => panic!("expected NoSpeakDirective"),
    }
}

#[test]
fn recognize_body_reads_back() {
    let ev = recognize_event_json("m", "d");
    let pcm = vec![0u8, 1, 2, 13, 10, 45, 255];
    let body = build_recognize_multipart(&ev, &pcm, "alexa-123");
    let parts = parse_multipart_related("multipart/form-data; boundary=alexa-123", &body)
        .ok()
        .unwrap();
    assert_eq!(parts.len(), 2);
    assert_eq!(parts[0].body, ev.as_bytes().to_vec());
    assert_eq!(parts[1].body, pcm);
    assert_eq!(parts[0].header("Content-Type"), Some("application/json; charset=UTF-8"));
    assert_eq!(parts[0].header("Content-Disposition"), Some("form-data; name=\"metadata\""));
    assert_eq!(parts[1].header("Content-Type"), Some("application/octet-stream"));
    assert_eq!(parts[1].header("Content-Disposition"), Some("form-data; name=\"audio\""));
}

#[test]
fn speak_in_another_namespace_is_not_the_answer() {
    let directive = br#"{"directive":{"header":{"namespace":"Other","name":"Speak"},"payload":{"url":"cid:x"}}}"#;
    let parts = vec![
        Part {
            headers: vec![("Content-Type".to_string(), "application/json".to_string())],
            body: directive.to_vec(),
        },
        Part { headers: vec![("Content-ID".to_string(), "x".to_string())], body: vec![1] },
    ];
    assert!(matches!(extract_speak_audio(&parts), Err(AvsError::NoSpeakDirective)));
}
