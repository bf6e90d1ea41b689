use sheets_lib::update_check::{check, compare, parse_curl_output, report, Release, UpdateStatus};

#[test]
fn a_newer_tag_is_detected_regardless_of_the_v_prefix() {
    assert!(compare("v0.2.0", "0.1.0"));
    assert!(compare("0.2.0", "0.1.0"));
}

#[test]
fn a_matching_tag_is_not_an_update() {
    assert!(!compare("v0.1.0", "0.1.0"));
    assert!(!compare("0.1.0", "0.1.0"));
}

#[test]
fn a_404_reports_a_clear_not_yet_available_message() {
    let output = "{\"message\": \"Not Found\"}\n404";
    let err = parse_curl_output(output).unwrap_err();
    assert!(err.contains("no public release found yet"), "unexpected error: {err}");
}

#[test]
fn a_200_parses_the_release() {
    let output = "{\"tag_name\": \"v0.2.0\", \"html_url\": \"https://example.com/releases/v0.2.0\"}\n200";
    let body = parse_curl_output(output).unwrap();
    let release: serde_json::Value = serde_json::from_str(&body).unwrap();
    assert_eq!(release["tag_name"], "v0.2.0");
    assert_eq!(release["html_url"], "https://example.com/releases/v0.2.0");
}

#[test]
fn an_unexpected_status_is_reported_with_the_code() {
    let output = "{}\n500";
    let err = parse_curl_output(output).unwrap_err();
    assert!(err.contains("500"), "unexpected error: {err}");
}

#[test]
fn output_without_a_status_line_is_unexpected() {
    assert_eq!(parse_curl_output("{}").unwrap_err(), "unexpected response from GitHub");
}

#[test]
fn the_status_is_the_text_after_the_last_newline_trimmed() {
    assert_eq!(parse_curl_output("line one\nline two\n 200 \r").unwrap(), "line one\nline two");
    assert_eq!(parse_curl_output("{}\n301").unwrap_err(), "GitHub returned an unexpected status (301)");
}

#[test]
fn check_reports_the_release_against_this_build() {
    let release = Release { tag_name: "vv1.2.0".to_string(), html_url: "https://example.com/r".to_string() };
    let status = check(release, "1.1.0".to_string());
    assert_eq!(status.latest_version, "1.2.0");
    assert_eq!(status.current_version, "1.1.0");
    assert_eq!(status.release_url, "https://example.com/r");
    assert!(status.update_available);

    let same = check(Release { tag_name: "v1.1.0".to_string(), html_url: String::new() }, "1.1.0".to_string());
    assert!(!same.update_available);
}

#[test]
fn reports_say_what_the_check_found() {
    let newer = UpdateStatus {
        current_version: "0.1.0".to_string(),
        latest_version: "0.2.0".to_string(),
        release_url: "https://example.com/r".to_string(),
        update_available: true,
    };
    let r = report(Ok(newer));
    assert_eq!(r.title, "Update Available");
    assert_eq!(r.message, "You're on version 0.1.0. Version 0.2.0 is available.");
    assert_eq!(r.release_url.as_deref(), Some("https://example.com/r"));

    let same = UpdateStatus {
        current_version: "0.1.0".to_string(),
        latest_version: "0.1.0".to_string(),
        release_url: String::new(),
        update_available: false,
    };
    let r = report(Ok(same));
    assert_eq!(r.title, "Up to Date");
    assert_eq!(r.message, "You're on the latest version (0.1.0).");
    assert!(r.release_url.is_none() && !r.failed);

    let r = report(Err("couldn't reach GitHub".to_string()));
    assert_eq!(r.title, "Update Check Failed");
    assert_eq!(r.message, "Couldn't check for updates: couldn't reach GitHub");
    assert!(r.failed);
}
