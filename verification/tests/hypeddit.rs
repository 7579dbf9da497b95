use djdrop::hypeddit::{
    hypeddit_form, hypeddit_next, hypeddit_requests, hypeddit_windows_fit, HypedditForm,
};

/// A gate page laid out the way the field reader expects: each hidden input
/// stands alone, with plain text (no tag brackets) on either side of it.
fn page() -> String {
    let pad = "x".repeat(450);
    let fields = [
        r#"<input type="hidden" name="fan_gate_id" value="2205464" />"#,
        r#"<input type="hidden" name="wrndk" value="w9" />"#,
        r#"<input type="hidden" name="current_download_file_listner" value="uid-7" />"#,
        r#"<input type="hidden" name="nwSteps" value="sc,,yt," />"#,
        r#"<input type="hidden" name="gvt" value="g-1" />"#,
    ];
    let mut html = String::from(r#"<meta name="csrf-token" content="tok123">"#);
    for f in fields.iter() {
        html.push_str(&pad);
        html.push_str(f);
    }
    html.push_str(&pad);
    html
}

fn pairs(v: &[(String, String)]) -> Vec<(&str, &str)> {
    v.iter().map(|(k, x)| (k.as_str(), x.as_str())).collect()
}

#[test]
fn hypeddit_form_reads_all_fields() {
    let f = hypeddit_form(&page()).unwrap();
    assert_eq!(f.csrf, "tok123");
    assert_eq!(f.gate_id, "2205464");
    assert_eq!(f.wrndk, "w9");
    assert_eq!(f.file_uid, "uid-7");
    assert_eq!(f.steps, "sc,,yt,");
    assert_eq!(f.gvt, "g-1");
}

#[test]
fn hypeddit_form_gvt_fallback_and_missing_fields() {
    let p = page().replace(r#"<input type="hidden" name="gvt" value="g-1" />"#, r#"<span id="gvt" value="g-2"></span>"#);
    assert_eq!(hypeddit_form(&p).unwrap().gvt, "g-2");
    let p = page().replace(r#"name="nwSteps""#, r#"name="other""#);
    assert_eq!(hypeddit_form(&p).unwrap().steps, "");
    let p = page().replace("csrf-token", "other");
    assert!(hypeddit_form(&p).is_none());
}

#[test]
fn hypeddit_requests_are_built_from_the_form() {
    let f = hypeddit_form(&page()).unwrap();
    let q = hypeddit_requests(&f, "https://hypeddit.com/artist/track").unwrap();
    assert_eq!(q.visit_url, "https://hypeddit.com/gate/ge");
    assert_eq!(q.download_url, "https://hypeddit.com/gate/download/ul");
    assert_eq!(pairs(&q.visit_form), vec![("vt", "g-1"), ("uid", "uid-7"), ("_token", "tok123")]);
    assert_eq!(
        pairs(&q.download_form),
        vec![
            ("file", "uid-7"), ("download_visit", "true"), ("profile_downloads", "true"),
            ("page", "nonsingle"), ("download_action", "DOWNLOAD"), ("is_skippable", "1"),
            ("steps", "sc,,yt,"), ("email", ""), ("is_mobile", ""), ("fan_gate_id", "2205464"),
            ("wrndk", "w9"), ("gvf", "0"), ("_token", "tok123"),
            ("skip_gate_steps[]", "sc"), ("skip_gate_steps[]", "yt"),
        ]
    );
    assert!(hypeddit_requests(&f, "not a link").is_none());
}

#[test]
fn hypeddit_answer() {
    assert_eq!(hypeddit_next(Some(true), Some("https://s3/x.mp3".to_string())), Some("https://s3/x.mp3".to_string()));
    assert_eq!(hypeddit_next(Some(true), Some(String::new())), None);
    assert_eq!(hypeddit_next(Some(false), Some("u".to_string())), None);
    assert_eq!(hypeddit_next(None, Some("u".to_string())), None);
    assert_eq!(hypeddit_next(Some(true), None), None);
    let _ = HypedditForm {
        csrf: String::new(), gate_id: String::new(), wrndk: String::new(),
        file_uid: String::new(), steps: String::new(), gvt: String::new(),
    };
}

#[test]
fn hypeddit_pages_are_checked_before_reading() {
    assert!(hypeddit_windows_fit(&page()));
    assert!(hypeddit_windows_fit("no form at all"));
    let split = format!("{}{}é", r#"<meta name="csrf-token" content="t">"#, "q".repeat(269));
    assert!(!hypeddit_windows_fit(&split));
}
