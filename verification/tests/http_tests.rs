use kite_agent::http::{
    content_type_or_default, fetch_method, fetch_result, groq_result, groq_upload, is_success, proxy_method,
    text_headers, tts_body, tts_status, HttpMethod,
};

#[test]
fn methods() {
    assert_eq!(proxy_method(Some("POST")), HttpMethod::Post);
    assert_eq!(proxy_method(Some("DELETE")), HttpMethod::Delete);
    assert_eq!(proxy_method(Some("PATCH")), HttpMethod::Patch);
    assert_eq!(proxy_method(Some("post")), HttpMethod::Get);
    assert_eq!(proxy_method(None), HttpMethod::Get);
    assert_eq!(fetch_method(Some("PUT")), HttpMethod::Put);
    assert_eq!(fetch_method(Some("DELETE")), HttpMethod::Get);
    assert!(is_success(204));
    assert!(!is_success(301));
}

#[test]
fn transcription_upload() {
    let u = groq_upload("  aGVsbG8=\n", "k", None, None).ok().unwrap();
    assert_eq!(u.audio, b"hello".to_vec());
    assert_eq!(u.model, "whisper-large-v3-turbo");
    assert_eq!(u.filename, "recording.wav");
    assert_eq!(u.authorization, "Bearer k");
    let u = groq_upload("aGk=", "k", Some("m".to_string()), Some("f.webm".to_string())).ok().unwrap();
    assert_eq!((u.model.as_str(), u.filename.as_str()), ("m", "f.webm"));
    let e = groq_upload("!!!", "k", None, None).err().unwrap();
    assert!(e.starts_with("bad audio encoding: "));
    assert_eq!(groq_result(200, "{}".to_string()), Ok("{}".to_string()));
    assert_eq!(groq_result(401, "nope".to_string()), Err("groq http 401: nope".to_string()));
}

#[test]
fn speech_and_fetch_results() {
    assert_eq!(tts_status(404), Err("tts http 404".to_string()));
    assert_eq!(tts_status(200), Ok(()));
    assert_eq!(tts_body(b"hello"), "aGVsbG8=");
    assert_eq!(fetch_result(200, "image/png", &[1, 2, 3]), Ok("image/png\nAQID".to_string()));
    assert_eq!(fetch_result(500, "x", b"oops"), Err("http 500: oops".to_string()));
    let long = vec![b'z'; 300];
    assert_eq!(fetch_result(403, "x", &long), Err(format!("http 403: {}", "z".repeat(200))));
    assert_eq!(content_type_or_default(None), "application/octet-stream");
    assert_eq!(content_type_or_default(Some("text/plain".to_string())), "text/plain");
}

#[test]
fn text_valued_headers() {
    let pairs = vec![
        ("a".to_string(), Some("1".to_string())),
        ("b".to_string(), None),
        ("c".to_string(), Some("3".to_string())),
    ];
    assert_eq!(text_headers(pairs), vec![("a".to_string(), "1".to_string()), ("c".to_string(), "3".to_string())]);
}

#[test]
fn encoded_audio_decodes_back() {
    let bytes: Vec<u8> = (0u8..=255).collect();
    let text = kite_agent::http::tts_body(&bytes);
    let up = kite_agent::http::groq_upload(&text, "k", None, None).ok().unwrap();
    assert_eq!(up.audio, bytes);
}
