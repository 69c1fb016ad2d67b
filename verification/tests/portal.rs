//! Tests against page fixtures: markup extraction, the login-flow steps,
//! the resource locator, and caption parsing.

use defacto::captions::{CaptionsError, captions_transcript};
use defacto::locator::{LinksError, page_config, recording_links};
use defacto::recording::{ConfigError, caption_url, parse_page_config, stream_url};
use defacto::resolver::{ResolveAction, first_action};
use defacto::rows::make_row;
use defacto::batch::collect_rows;
use defacto::session::{
    AuthError, judge_liveness, origin_value, prepare_credentials_post,
    process_credentials_response, extract_session_key, restore_plan, strip_query, LoginData,
    RestorePlan, Session,
};

const VTT_SCENARIO: &str = "WEBVTT\n\n00:00:01.000 --> 00:00:04.000\nDas ist trivial.\n\n00:00:05.000 --> 00:00:09.000\nDas ist trivial.\n\n00:00:10.000 --> 00:00:12.000\nErgibt das Sinn?\n";

#[test]
fn liveness_requires_the_exact_landing_url() {
    assert!(judge_liveness("https://tuwel.tuwien.ac.at/my/"));
    assert!(!judge_liveness("https://tuwel.tuwien.ac.at/login/index.php"));
    assert!(!judge_liveness("https://tuwel.tuwien.ac.at/my"));
    assert!(!judge_liveness("https://tuwel.tuwien.ac.at/my/?redirect=0"));
    assert!(!judge_liveness(""));
}

#[test]
fn restore_refreshes_only_live_sessions() {
    assert!(matches!(restore_plan(true), RestorePlan::RefreshKey));
    assert!(matches!(restore_plan(false), RestorePlan::FullLogin));
}

#[test]
fn fresh_session_is_unauthenticated() {
    let s = Session::new();
    assert!(!s.authenticated());
}

#[test]
fn strip_query_removes_only_the_query() {
    assert_eq!(strip_query("https://idp.example/login?foo=1&bar=2"), "https://idp.example/login");
    assert_eq!(strip_query("https://idp.example/login"), "https://idp.example/login");
    assert_eq!(strip_query("https://idp.example/a?x=1#frag"), "https://idp.example/a#frag");
}

#[test]
fn origin_is_composed_of_scheme_and_host() {
    assert_eq!(origin_value("idp.example", "https"), "https://idp.example");
}

#[test]
fn credentials_post_is_prepared_from_the_entry_page() {
    let body = "<html><head><title>Login</title></head><body><form name=\"f\" method=\"post\"><input name=\"username\"/><input name=\"AuthState\" value=\"_abc123\"/></form></body></html>";
    let login = LoginData {
        username: "user".to_string(),
        password: "pw".to_string(),
        totp: "123456".to_string(),
    };
    let post = prepare_credentials_post(
        body,
        "https://idp.example/module.php/core/loginuserpass.php?AuthState=_abc123",
        "idp.example",
        "https",
        &login,
    )
    .unwrap();
    assert_eq!(post.url, "https://idp.example/module.php/core/loginuserpass.php");
    assert_eq!(post.origin, "https://idp.example");
    assert_eq!(
        post.referer,
        "https://idp.example/module.php/core/loginuserpass.php?AuthState=_abc123"
    );
    assert_eq!(
        post.fields,
        vec![
            ("username".to_string(), "user".to_string()),
            ("password".to_string(), "pw".to_string()),
            ("totp".to_string(), "123456".to_string()),
            ("AuthState".to_string(), "_abc123".to_string()),
        ]
    );
}

#[test]
fn missing_auth_state_input_is_reported() {
    let login = LoginData {
        username: "u".to_string(),
        password: "p".to_string(),
        totp: "1".to_string(),
    };
    let body = "<html><body><form name=\"f\"><input name=\"other\"/></form></body></html>";
    match prepare_credentials_post(body, "https://idp/x", "idp", "https", &login) {
        Err(AuthError::AuthStateMissing) => {}
        _ => panic!("expected the missing anti-forgery input to be reported"),
    }
    let no_value = "<html><body><form name=\"f\"><input name=\"AuthState\"/></form></body></html>";
    match prepare_credentials_post(no_value, "https://idp/x", "idp", "https", &login) {
        Err(AuthError::AuthStateValueMissing) => {}
        _ => panic!("expected the missing value to be reported"),
    }
}

#[test]
fn relay_response_yields_the_relay_post() {
    let body = "<html><head><title>Sende Nachricht</title></head><body><form method=\"post\" action=\"https://tuwel.tuwien.ac.at/auth/saml2/sp/saml2-acs.php\"><input name=\"SAMLResponse\" value=\"blob\"/><input name=\"RelayState\" value=\"rs1\"/><input type=\"submit\" value=\"Continue\"/></form></body></html>";
    let post = process_credentials_response(body).unwrap();
    assert_eq!(post.url, "https://tuwel.tuwien.ac.at/auth/saml2/sp/saml2-acs.php");
    assert_eq!(
        post.fields,
        vec![
            ("SAMLResponse".to_string(), "blob".to_string()),
            ("RelayState".to_string(), "rs1".to_string()),
        ]
    );
}

#[test]
fn repeated_relay_field_keeps_the_last_value() {
    let body = "<html><head><title>Sende Nachricht</title></head><body><form method=\"post\" action=\"https://target/acs\"><input name=\"k\" value=\"first\"/><input name=\"k\" value=\"second\"/></form></body></html>";
    let post = process_credentials_response(body).unwrap();
    assert_eq!(post.fields, vec![("k".to_string(), "second".to_string())]);
}

#[test]
fn login_page_title_surfaces_the_inline_error() {
    let body = "<html><head><title>TU Wien Login</title></head><body><div class=\"message-box error\">Falsches Passwort</div></body></html>";
    match process_credentials_response(body) {
        Err(AuthError::LoginRejected(msg)) => assert_eq!(msg, "Falsches Passwort"),
        _ => panic!("expected the rejection message"),
    }
}

#[test]
fn unknown_title_is_an_unrecognized_response() {
    let body = "<html><head><title>Maintenance</title></head><body></body></html>";
    match process_credentials_response(body) {
        Err(AuthError::UnexpectedTitle(t)) => assert_eq!(t, "Maintenance"),
        _ => panic!("expected the unrecognized-response error"),
    }
}

#[test]
fn session_key_is_read_from_the_third_head_script() {
    let body = "<html><head><script>var a = 1;</script><script>var b = 2;</script><script>\nvar before = true;\nM.cfg = {\"wwwroot\":\"https://tuwel.tuwien.ac.at\",\"sesskey\":\"k123\"};var after = 1;\n</script></head><body></body></html>";
    assert_eq!(extract_session_key(body).unwrap(), "k123");
}

#[test]
fn session_key_failures_name_their_stage() {
    let no_script = "<html><head><script>a</script></head><body></body></html>";
    assert!(matches!(extract_session_key(no_script), Err(AuthError::KeyScriptMissing)));
    let no_line = "<html><head><script>a</script><script>b</script><script>var x = 1;</script></head><body></body></html>";
    assert!(matches!(extract_session_key(no_line), Err(AuthError::KeyLineMissing)));
    let bad_json = "<html><head><script>a</script><script>b</script><script>M.cfg = {broken;</script></head><body></body></html>";
    assert!(matches!(extract_session_key(bad_json), Err(AuthError::KeyJsonInvalid)));
    let no_key = "<html><head><script>a</script><script>b</script><script>M.cfg = {\"wwwroot\":\"x\"};</script></head><body></body></html>";
    assert!(matches!(extract_session_key(no_key), Err(AuthError::KeyMissing)));
}

fn course_page(rows: &str) -> String {
    format!(
        "<html><head><title>Course</title></head><body><div>nav</div><div><div>a</div><div>b</div><div>c</div><div><div><div><div>x</div><div><div><section><div>head</div><div><div>toolbar</div><div><table><tbody>{}</tbody></table></div></div></section></div></div></div></div></div></div></body></html>",
        rows
    )
}

#[test]
fn recording_links_are_collected_in_order() {
    let page = course_page("<tr><td><a href=\"https://tuwel.tuwien.ac.at/mod/opencast/play1\">One</a></td></tr><tr><td><a href=\"https://tuwel.tuwien.ac.at/mod/opencast/play2\">Two</a></td></tr><tr><td><a>No link</a></td></tr>");
    let links = recording_links(&page).unwrap();
    assert_eq!(
        links,
        vec![
            "https://tuwel.tuwien.ac.at/mod/opencast/play1".to_string(),
            "https://tuwel.tuwien.ac.at/mod/opencast/play2".to_string(),
        ]
    );
}

#[test]
fn missing_recording_table_is_an_error() {
    let page = "<html><body><div>empty</div></body></html>";
    assert!(matches!(recording_links(page), Err(LinksError::TableMissing)));
}

#[test]
fn table_at_the_wrong_position_is_not_found() {
    let page = "<html><body><div><table><tbody><tr><td><a href=\"https://x\">l</a></td></tr></tbody></table></div></body></html>";
    assert!(matches!(recording_links(page), Err(LinksError::TableMissing)));
}

fn recording_page(script: &str) -> String {
    format!(
        "<html><head><title>Recording</title></head><body><div>nav</div><div><div>a</div><div>b</div><div>c</div><div><div><div><div>x</div><div><div><section><div>head</div><div><script>{}</script></div></section></div></div></div></div></div></div></body></html>",
        script
    )
}

const CONFIG_JSON: &str = "{\"metadata\":{\"title\":\"Lecture 1\"},\"captions\":[{\"format\":\"vtt\",\"lang\":\"en\",\"url\":\"https://caps/en.vtt\"},{\"format\":\"vtt\",\"lang\":\"de\",\"url\":\"https://caps/de.vtt\"}],\"streams\":[{\"role\":\"presentation\",\"sources\":{\"mp4\":[{\"src\":\"https://media/pres.mp4\",\"res\":{\"w\":1920,\"h\":1080}}]}},{\"role\":\"mainAudio\",\"sources\":{\"mp4\":[{\"src\":\"https://media/big.mp4\",\"res\":{\"w\":1280,\"h\":720}},{\"src\":\"https://media/small.mp4\",\"res\":{\"w\":640,\"h\":360}},{\"src\":\"https://media/broken.mp4\",\"res\":{\"w\":320}}]}}]}";

#[test]
fn page_config_is_read_through_the_cdata_wrapper() {
    let script = format!("//<![CDATA[\nwindow.episode = {}//]]>", CONFIG_JSON);
    let page = recording_page(&script);
    let cfg = page_config(&page).unwrap();
    assert_eq!(cfg.title.as_deref(), Some("Lecture 1"));
    assert_eq!(caption_url(&cfg).as_deref(), Some("https://caps/de.vtt"));
    assert_eq!(stream_url(&cfg).as_deref(), Some("https://media/small.mp4"));
}

#[test]
fn page_config_is_read_without_the_wrapper() {
    let script = format!("window.episode = {}", CONFIG_JSON);
    let cfg = parse_page_config(&script).unwrap();
    assert_eq!(cfg.title.as_deref(), Some("Lecture 1"));
}

#[test]
fn config_failures_name_their_stage() {
    let no_script = "<html><body><div>bare</div></body></html>";
    assert!(matches!(page_config(no_script), Err(ConfigError::ScriptMissing)));
    let no_setter = recording_page("console.log(1);");
    assert!(matches!(page_config(&no_setter), Err(ConfigError::SetterMissing)));
    let bad_json = recording_page("window.episode = {broken");
    assert!(matches!(page_config(&bad_json), Err(ConfigError::JsonInvalid)));
}

#[test]
fn smallest_rendition_wins_and_ties_keep_the_first() {
    let script = "window.episode = {\"streams\":[{\"role\":\"mainAudio\",\"sources\":{\"mp4\":[{\"src\":\"https://a\",\"res\":{\"w\":100,\"h\":90}},{\"src\":\"https://b\",\"res\":{\"w\":90,\"h\":100}},{\"src\":\"https://c\",\"res\":{\"w\":300,\"h\":30}}]}}]}";
    let cfg = parse_page_config(script).unwrap();
    assert_eq!(stream_url(&cfg).as_deref(), Some("https://a"));
}

#[test]
fn captions_scenario_is_reduced() {
    let transcript = captions_transcript(VTT_SCENARIO).unwrap();
    assert_eq!(transcript, "Das ist trivial. Ergibt das Sinn?");
}

#[test]
fn cue_payload_lines_are_joined_and_trimmed() {
    let vtt = "WEBVTT\n\n00:00:01.000 --> 00:00:02.000\nErste Zeile\nzweite Zeile\n\n00:00:03.000 --> 00:00:04.000\nErste Zeile\nzweite Zeile\n";
    let transcript = captions_transcript(vtt).unwrap();
    assert_eq!(transcript, "Erste Zeile zweite Zeile");
}

#[test]
fn unterminated_config_assignment_is_rejected() {
    let body = "<html><head><script>a</script><script>b</script><script>M.cfg = {\"sesskey\":\"z\"}\nrest;</script></head><body></body></html>";
    assert!(matches!(extract_session_key(body), Err(AuthError::KeyLineMissing)));
}

#[test]
fn unusable_captions_are_rejected() {
    assert!(matches!(captions_transcript("not a subtitle file"), Err(CaptionsError::Unparseable)));
    let comment_only = "WEBVTT\n\nNOTE nothing timed here\n";
    assert!(matches!(captions_transcript(comment_only), Err(CaptionsError::NoCues)));
}

#[test]
fn course_with_two_recordings_end_to_end() {
    let page = course_page("<tr><td><a href=\"https://tuwel.tuwien.ac.at/mod/opencast/play1\">One</a></td></tr><tr><td><a href=\"https://tuwel.tuwien.ac.at/mod/opencast/play2\">Two</a></td></tr>");
    let links = recording_links(&page).unwrap();
    assert_eq!(links.len(), 2);

    let first_script = "window.episode = {\"metadata\":{\"title\":\"With captions\"},\"captions\":[{\"format\":\"vtt\",\"lang\":\"de\",\"url\":\"https://caps/de.vtt\"}],\"streams\":[]}";
    let first_cfg = parse_page_config(first_script).unwrap();
    let first_transcript = match first_action(&first_cfg) {
        ResolveAction::FetchCaptions(url) => {
            assert_eq!(url, "https://caps/de.vtt");
            captions_transcript(VTT_SCENARIO).unwrap()
        }
        _ => panic!("expected the captions path"),
    };
    assert_eq!(first_transcript, "Das ist trivial. Ergibt das Sinn?");
    let first_row = make_row(
        "With captions".to_string(),
        links[0].clone(),
        first_transcript,
    );
    assert_eq!((first_row.defacto, first_row.trivial, first_row.sinn), (0, 1, 1));

    let second_script = "window.episode = {\"metadata\":{\"title\":\"Audio only\"},\"streams\":[{\"role\":\"mainAudio\",\"sources\":{\"mp4\":[{\"src\":\"https://media/low.mp4\",\"res\":{\"w\":640,\"h\":360}}]}}]}";
    let second_cfg = parse_page_config(second_script).unwrap();
    let second_transcript = match first_action(&second_cfg) {
        ResolveAction::Recognize(url) => {
            assert_eq!(url, "https://media/low.mp4");
            "Der erkannte Text bleibt unverändert.".to_string()
        }
        _ => panic!("expected the recognition path"),
    };
    let second_row = make_row(
        "Audio only".to_string(),
        links[1].clone(),
        second_transcript.clone(),
    );
    assert_eq!(second_row.transcript, "Der erkannte Text bleibt unverändert.");

    let rows = collect_rows(vec![Ok::<_, String>(first_row), Ok(second_row)]);
    assert_eq!(rows.len(), 2);
    assert_eq!(rows[0].title, "With captions");
    assert_eq!(rows[1].title, "Audio only");
}
