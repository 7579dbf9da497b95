use djdrop::gate::{
    convert_dropbox_url, convert_gdrive_url, extract_input_value, extract_meta_content,
    extract_purchase_link, gate_step, input_window_fits, is_audio_content_type,
    is_direct_audio_url, meta_window_fits, purchase_window_fits, GateStep,
};

#[test]
fn extract_purchase_link_gate_sc() {
    let html = r#"<div class="purchaseLink__container"><a href="https://gate.sc?url=https%3A%2F%2Fhypeddit.com%2Ftest&amp;token=abc" class="sc-button">FREE DL</a></div>"#;
    let result = extract_purchase_link(html);
    assert!(result.is_some());
    assert!(result.unwrap().contains("gate.sc"));
}

#[test]
fn extract_purchase_link_hypeddit_direct() {
    let html = r#"<div class="purchaseLink__container"><a href="https://hypeddit.com/artist/track">DL</a></div>"#;
    let result = extract_purchase_link(html);
    assert_eq!(result, Some("https://hypeddit.com/artist/track".to_string()));
}

#[test]
fn extract_purchase_link_none_for_buy_link() {
    let html = r#"<div class="purchaseLink__container"><a href="https://beatport.com/track/x">Buy</a></div>"#;
    assert!(extract_purchase_link(html).is_none());
}

#[test]
fn extract_purchase_link_none_when_absent() {
    assert!(extract_purchase_link("<html><body>no links</body></html>").is_none());
}

#[test]
fn extract_input_value_double_quote() {
    let html = r#"<input type="hidden" name="fan_gate_id" id="fan_gate_id" value="2205464" />"#;
    assert_eq!(extract_input_value(html, "fan_gate_id"), Some("2205464".to_string()));
}

#[test]
fn extract_input_value_closing_tag_before_input_returns_none() {
    // Closing tags before <input invert tag_start/tag_end — guard returns None, no panic.
    let html = r#"</div></label><input type="hidden" name="fan_gate_id" value="999" />"#;
    assert!(extract_input_value(html, "fan_gate_id").is_none());
    // Pathological: name appears inside a closing tag context where no opening < precedes >
    let html2 = r#"</span> name="fan_gate_id" value="bad">"#;
    assert!(extract_input_value(html2, "fan_gate_id").is_none());
}

#[test]
fn extract_input_value_single_quote() {
    let html = r#"<input type="hidden" name="fan_gate_id" value='99999' />"#;
    assert_eq!(extract_input_value(html, "fan_gate_id"), Some("99999".to_string()));
}

#[test]
fn extract_meta_content_csrf() {
    let html = r#"<meta name="csrf-token" content="abc123XYZ">"#;
    assert_eq!(extract_meta_content(html, "csrf-token"), Some("abc123XYZ".to_string()));
}

#[test]
fn is_direct_audio_url_mp3() {
    assert!(is_direct_audio_url("https://example.com/song.mp3"));
    assert!(is_direct_audio_url("https://example.com/song.MP3?v=1"));
    assert!(!is_direct_audio_url("https://hypeddit.com/artist/track"));
}

#[test]
fn convert_dropbox_dl0_to_dl1() {
    let result = convert_dropbox_url("https://www.dropbox.com/s/abc/song.mp3?dl=0");
    assert!(result.contains("dl.dropboxusercontent.com"));
    assert!(result.contains("dl=1"));
    assert!(!result.contains("dl=0"));
}

#[test]
fn convert_dropbox_already_direct() {
    let url = "https://dl.dropboxusercontent.com/s/abc/song.mp3";
    assert_eq!(convert_dropbox_url(url), url);
}

#[test]
fn convert_gdrive_file_view() {
    let url = "https://drive.google.com/file/d/1aBcDeFgHiJ/view";
    let result = convert_gdrive_url(url);
    assert_eq!(result, Some("https://drive.google.com/uc?export=download&id=1aBcDeFgHiJ".to_string()));
}

#[test]
fn convert_gdrive_open_id() {
    let url = "https://drive.google.com/open?id=1aBcDeFgHiJ";
    let result = convert_gdrive_url(url);
    assert_eq!(result, Some("https://drive.google.com/uc?export=download&id=1aBcDeFgHiJ".to_string()));
}

#[test]
fn dropbox_links_without_query_or_with_query() {
    assert_eq!(
        convert_dropbox_url("https://www.dropbox.com/s/abc/song.mp3"),
        "https://dl.dropboxusercontent.com/s/abc/song.mp3?dl=1"
    );
    assert_eq!(
        convert_dropbox_url("https://www.dropbox.com/s/abc/song.mp3?rlkey=x"),
        "https://dl.dropboxusercontent.com/s/abc/song.mp3?rlkey=x&dl=1"
    );
    assert_eq!(
        convert_dropbox_url("https://www.dropbox.com/a?dl=0&b=dl=0"),
        "https://dl.dropboxusercontent.com/a?dl=1&b=dl=1"
    );
}

#[test]
fn gdrive_without_id() {
    assert_eq!(convert_gdrive_url("https://drive.google.com/file/d//view"), None);
    assert_eq!(convert_gdrive_url("https://drive.google.com/drive/folders"), None);
    assert_eq!(
        convert_gdrive_url("https://drive.google.com/file/d//view?id=Z9&x=1"),
        Some("https://drive.google.com/uc?export=download&id=Z9".to_string())
    );
}

#[test]
fn audio_extensions_and_types() {
    for u in ["a.wav", "a.FLAC", "a.aiff", "a.aif", "a.m4a", "a.ogg", "a.opus", "a.aac?x=.zip"] {
        assert!(is_direct_audio_url(u));
    }
    assert!(!is_direct_audio_url("a.zip?x=.mp3"));
    assert!(is_audio_content_type("audio/mpeg"));
    assert!(is_audio_content_type("application/octet-stream"));
    assert!(!is_audio_content_type("text/html; charset=utf-8"));
    assert!(!is_audio_content_type("application/octet-stream; x"));
}

#[test]
fn input_value_edge_cases() {
    assert_eq!(extract_input_value(r#"<input name="a" value="">"#, "a"), Some(String::new()));
    assert_eq!(extract_input_value(r#"<input name="a" value="x"#, "a"), None);
    assert_eq!(extract_input_value(r#"<input name="b" value="x">"#, "a"), None);
    assert_eq!(extract_meta_content(r#"<meta name="t">"#, "t"), None);
}

#[test]
fn gate_steps() {
    assert_eq!(
        gate_step("https://gate.sc?url=https%3A%2F%2Fhypeddit.com%2Ftest&token=abc"),
        GateStep::Follow("https://hypeddit.com/test".to_string())
    );
    assert_eq!(gate_step("https://gate.sc?token=abc"), GateStep::Unresolvable);
    assert_eq!(gate_step("gate.sc/no-scheme"), GateStep::Unresolvable);
    assert_eq!(
        gate_step("https://hypeddit.com/artist/track"),
        GateStep::Hypeddit("https://hypeddit.com/artist/track".to_string())
    );
    assert_eq!(gate_step("https://cdn.example.com/x.mp3"), GateStep::Found("https://cdn.example.com/x.mp3".to_string()));
    assert_eq!(
        gate_step("https://www.dropbox.com/s/abc/song.wav?dl=0"),
        GateStep::Found("https://dl.dropboxusercontent.com/s/abc/song.wav?dl=1".to_string())
    );
    assert_eq!(
        gate_step("https://www.dropbox.com/s/abc/song.mp3?dl=0"),
        GateStep::Found(convert_dropbox_url("https://www.dropbox.com/s/abc/song.mp3?dl=0"))
    );
    assert_eq!(
        gate_step("https://www.dropbox.com/s/abc/song.mp3?dl=0"),
        GateStep::Found("https://dl.dropboxusercontent.com/s/abc/song.mp3?dl=1".to_string())
    );
    assert_eq!(
        gate_step("https://www.dropbox.com/s/abc/song?dl=0"),
        GateStep::Found("https://dl.dropboxusercontent.com/s/abc/song?dl=1".to_string())
    );
    assert_eq!(gate_step("https://drive.google.com/drive/folders"), GateStep::Unresolvable);
    assert_eq!(gate_step("https://example.com/download"), GateStep::Probe("https://example.com/download".to_string()));
}

#[test]
fn windows_that_would_split_a_character_are_recognised() {
    let mark = "purchaseLink__container";
    let split = format!("{}{}é", mark, "a".repeat(1476));
    assert!(!purchase_window_fits(&split));
    let whole = format!("{}{}é", mark, "a".repeat(1475));
    assert!(purchase_window_fits(&whole));
    assert!(purchase_window_fits("no container here é"));

    let field = r#"name="f" value="1">"#;
    let split = format!("é{}{}", "x".repeat(199), field);
    assert!(!input_window_fits(&split, "f"));
    let whole = format!("é{}{}", "x".repeat(198), field);
    assert!(input_window_fits(&whole, "f"));
    let tail = format!("{}{}é", field, "y".repeat(399 - field.len()));
    assert!(!input_window_fits(&tail, "f"));

    let meta = r#"name="m" content="c">"#;
    let split = format!("{}{}é", meta, "z".repeat(299 - meta.len()));
    assert!(!meta_window_fits(&split, "m"));
    assert!(meta_window_fits(meta, "m"));
}
