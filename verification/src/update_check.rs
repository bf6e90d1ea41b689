//! Checking GitHub for a newer release of Sheets: reading the reply of the
//! one API call (made with `curl -w "\n%{http_code}"`, so the body is
//! followed by a newline and the HTTP status), and comparing the latest
//! tag with this build's version.
use vstd::prelude::*;

use crate::text::{chars_of, rfind_char, same_chars, slice_of, string_of, strip_leading, trim, trimmed, without_leading, rsplit_once, lemma_last_index};

verus! {

/// The fields of GitHub's latest-release reply that Sheets uses.
pub struct Release {
    pub tag_name: String,
    pub html_url: String,
}

/// The outcome of an update check.
pub struct UpdateStatus {
    pub current_version: String,
    pub latest_version: String,
    pub release_url: String,
    pub update_available: bool,
}

// ---------------------------------------------------------------------------
// Specifications
// ---------------------------------------------------------------------------

/// A version as written in a release tag, without its leading `v`s.
pub open spec fn tag_version(tag: Seq<char>) -> Seq<char> {
    strip_leading(tag, 'v')
}

/// The message for a reply that can't be read.
pub open spec fn unexpected_response() -> Seq<char> {
    "unexpected response from GitHub"@
}

/// The message for a 404: nothing public has been released yet.
pub open spec fn not_published() -> Seq<char> {
    "no public release found yet — the repo may still be private, or nothing's been published"@
}

/// The message for any other status.
pub open spec fn status_message(status: Seq<char>) -> Seq<char> {
    "GitHub returned an unexpected status ("@ + status + ")"@
}

/// What curl's output says: the body of a 200 reply (the JSON to decode
/// into a `Release`), or the error for any other reply.
pub open spec fn curl_reply(output: Seq<char>) -> Result<Seq<char>, Seq<char>> {
    match rsplit_once(output, '\n') {
        None => Err(unexpected_response()),
        Some(parts) => {
            let status = trim(parts.1);
            if status == "200"@ {
                Ok(parts.0)
            } else if status == "404"@ {
                Err(not_published())
            } else {
                Err(status_message(status))
            }
        },
    }
}

// ---------------------------------------------------------------------------
// Executable code
// ---------------------------------------------------------------------------

/// Whether `latest_tag` (a release tag such as `v0.2.0`) names another
/// version than `current_version` (such as `0.1.0`). Sheets only ever
/// publishes newer releases, so "different" is all that matters.
pub fn compare(latest_tag: &str, current_version: &str) -> (r: bool)
    ensures
        r == (tag_version(latest_tag@) != current_version@),
{
    let v = without_leading(latest_tag, 'v');
    let a = chars_of(v.as_str());
    let b = chars_of(current_version);
    !same_chars(&a, &b)
}

/// Splits curl's `<body>\n<status>` output at its last newline: a 200
/// gives the body; a 404 (GitHub's answer both for a private repo and for
/// one whose only release is a draft) says nothing is published yet; any
/// other status is reported with its code; output with no newline is an
/// unexpected response.
pub fn parse_curl_output(output: &str) -> (r: Result<String, String>)
    ensures
        match r {
            Ok(body) => curl_reply(output@) == Ok::<Seq<char>, Seq<char>>(body@),
            Err(e) => curl_reply(output@) == Err::<Seq<char>, Seq<char>>(e@),
        },
{
    let cs = chars_of(output);
    let i = match rfind_char(&cs, '\n') {
        Some(i) => i,
        None => return Err(String::from_str("unexpected response from GitHub")),
    };
    proof {
        lemma_last_index(cs@, '\n');
    }
    let body = slice_of(&cs, 0, i);
    let rest = slice_of(&cs, i + 1, cs.len());
    assert(body@ =~= cs@.take(i as int));
    assert(rest@ =~= cs@.skip(i + 1));
    let status = trimmed(&rest);
    if same_chars(&status, &chars_of("200")) {
        Ok(string_of(&body))
    } else if same_chars(&status, &chars_of("404")) {
        Err(String::from_str("no public release found yet — the repo may still be private, or nothing's been published"))
    } else {
        let mut msg = String::from_str("GitHub returned an unexpected status (");
        let code = string_of(&status);
        msg.append(code.as_str());
        msg.append(")");
        Err(msg)
    }
}

/// The status of this build (`current_version`) against the latest
/// release: the release's version without its `v`, its page, and whether
/// it is another version.
pub fn check(release: Release, current_version: String) -> (r: UpdateStatus)
    ensures
        r.current_version == current_version,
        r.latest_version@ == tag_version(release.tag_name@),
        r.release_url == release.html_url,
        r.update_available == (tag_version(release.tag_name@) != current_version@),
{
    let update_available = compare(release.tag_name.as_str(), current_version.as_str());
    UpdateStatus {
        latest_version: without_leading(release.tag_name.as_str(), 'v'),
        current_version,
        release_url: release.html_url,
        update_available,
    }
}

/// What to tell the user after an update check: a title, a message, and
/// the release page to offer when a newer version is out.
pub struct UpdateReport {
    pub title: String,
    pub message: String,
    pub release_url: Option<String>,
    pub failed: bool,
}

/// The report for an update check's outcome: the newer version and its
/// page when one is out, that this is the latest version otherwise, and
/// the reason when the check failed.
pub fn report(outcome: Result<UpdateStatus, String>) -> (r: UpdateReport)
    ensures
        match outcome {
            Ok(s) => if s.update_available {
                &&& r.title@ == "Update Available"@
                &&& r.message@ == "You're on version "@ + s.current_version@ + ". Version "@ + s.latest_version@ + " is available."@
                &&& r.release_url == Some(s.release_url)
                &&& !r.failed
            } else {
                &&& r.title@ == "Up to Date"@
                &&& r.message@ == "You're on the latest version ("@ + s.current_version@ + ")."@
                &&& r.release_url is None
                &&& !r.failed
            },
            Err(e) => {
                &&& r.title@ == "Update Check Failed"@
                &&& r.message@ == "Couldn't check for updates: "@ + e@
                &&& r.release_url is None
                &&& r.failed
            },
        },
{
    match outcome {
        Ok(s) => {
            if s.update_available {
                let mut message = String::from_str("You're on version ");
                message.append(s.current_version.as_str());
                message.append(". Version ");
                message.append(s.latest_version.as_str());
                message.append(" is available.");
                UpdateReport {
                    title: String::from_str("Update Available"),
                    message,
                    release_url: Some(s.release_url),
                    failed: false,
                }
            } else {
                let mut message = String::from_str("You're on the latest version (");
                message.append(s.current_version.as_str());
                message.append(").");
                UpdateReport { title: String::from_str("Up to Date"), message, release_url: None, failed: false }
            }
        },
        Err(e) => {
            let mut message = String::from_str("Couldn't check for updates: ");
            message.append(e.as_str());
            UpdateReport { title: String::from_str("Update Check Failed"), message, release_url: None, failed: true }
        },
    }
}

} // verus!
