//! The authenticated-session manager, as a decision machine.
//!
//! The login flow against the identity provider is a fixed sequence of
//! requests; what the library owns are the decisions between them: judging
//! whether a restored session is live, extracting the anti-forgery token
//! from the login form, classifying the provider's response by its title,
//! collecting the relay form that completes the SAML handoff, and reading
//! the per-session security token out of the landing page.  The caller
//! performs the requests and feeds each response back in as plain values.

use vstd::prelude::*;
use crate::markup::{
    css_first_attr, css_first_inner_html, css_first_text, css_form_parts, select_first_attr,
    select_first_inner_html, select_first_text, select_form_parts,
};
use crate::text::{trim_spec, trim_str, chars_vec, has_prefix};
use crate::jsontree::{json_parse, member, model_str, parse_json, get_member, node_str};
use vstd::string::{StrSliceExecFns, StringExecFns};

verus! {

/// The landing page of an authenticated session.
pub open spec fn landing_url() -> Seq<char> {
    "https://tuwel.tuwien.ac.at/my/"@
}

/// The identity provider's entry point for the login flow.
pub open spec fn entry_url() -> Seq<char> {
    "https://tuwel.tuwien.ac.at/auth/saml2/login.php"@
}

pub fn landing_page_url() -> (r: String)
    ensures
        r@ == landing_url(),
{
    String::from_str("https://tuwel.tuwien.ac.at/my/")
}

pub fn login_entry_url() -> (r: String)
    ensures
        r@ == entry_url(),
{
    String::from_str("https://tuwel.tuwien.ac.at/auth/saml2/login.php")
}

/// The credentials a login attempt consumes: supplied once per run, never
/// persisted.
pub struct LoginData {
    pub username: String,
    pub password: String,
    pub totp: String,
}

/// Why a login attempt failed.  Every case is terminal for the attempt;
/// retrying is the caller's decision.
#[derive(Debug)]
pub enum AuthError {
    /// The login form carries no anti-forgery input.
    AuthStateMissing,
    /// The anti-forgery input carries no value.
    AuthStateValueMissing,
    /// The provider's response has no title to classify.
    TitleMissing,
    /// Still on the login page; the provider's inline message is carried.
    LoginRejected(String),
    /// Still on the login page, but no inline message was found.
    ErrorMessageMissing,
    /// A response title neither of the two known ones.
    UnexpectedTitle(String),
    /// The relay page carries no POST form.
    RelayFormMissing,
    /// The relay form declares no action URL.
    RelayActionMissing,
    /// The landing page carries no client-config script at the expected
    /// position.
    KeyScriptMissing,
    /// The script assigns no client-config object.
    KeyLineMissing,
    /// The assigned client-config object is not valid JSON.
    KeyJsonInvalid,
    /// The client-config object carries no session key.
    KeyMissing,
}

/// A session: unauthenticated while the security token is absent,
/// authenticated once it is present.
pub struct Session {
    pub session_key: Option<String>,
}

impl Session {
    /// A fresh, unauthenticated session.
    pub fn new() -> (s: Session)
        ensures
            s.session_key is None,
    {
        Session { session_key: None }
    }

    /// Whether the session holds a security token.
    pub fn authenticated(&self) -> (r: bool)
        ensures
            r == (self.session_key is Some),
    {
        self.session_key.is_some()
    }
}

/// What a restored session does next.
pub enum RestorePlan {
    /// The liveness check failed: run the full login flow.
    FullLogin,
    /// The session is live: only refresh the security token.
    RefreshKey,
}

/// A restored session only refreshes its token when the liveness check
/// succeeded; otherwise it falls through to the full login flow.
pub fn restore_plan(live: bool) -> (p: RestorePlan)
    ensures
        p is RefreshKey <==> live,
{
    if live {
        RestorePlan::RefreshKey
    } else {
        RestorePlan::FullLogin
    }
}

/// The liveness judgement: a session is live exactly when the probe for the
/// landing page ended, after redirects, on the landing URL itself.  Any
/// other final URL — a login redirect, most often — means the session is
/// dead.  This is the sole signal of validity; no cookie is inspected.
pub fn judge_liveness(final_url: &str) -> (live: bool)
    ensures
        live <==> final_url@ == landing_url(),
{
    let probe = String::from_str(final_url);
    let expected = landing_page_url();
    probe == expected
}

/// The first position of `c` at or after `from`, or the length.
pub open spec fn find_from(s: Seq<char>, c: char, from: int) -> int
    decreases s.len() - from when 0 <= from <= s.len()
{
    if from < s.len() && s[from] != c {
        find_from(s, c, from + 1)
    } else {
        from
    }
}

pub fn find_from_exec(v: &Vec<char>, c: char, from: usize) -> (r: usize)
    requires
        from <= v@.len(),
    ensures
        r as int == find_from(v@, c, from as int),
        from <= r <= v@.len(),
{
    let mut cur: usize = from;
    while cur < v.len() && v[cur] != c
        invariant
            from <= cur <= v@.len(),
            find_from(v@, c, from as int) == find_from(v@, c, cur as int),
        decreases v@.len() - cur,
    {
        cur += 1;
    }
    cur
}

/// A URL with its query removed: everything from the first `?` up to the
/// first following `#`, or to the end, is dropped.  On the normalized URLs
/// a transport reports, this is what clearing the query leaves.
pub open spec fn strip_query_spec(s: Seq<char>) -> Seq<char> {
    let q = find_from(s, '?', 0);
    if q == s.len() {
        s
    } else {
        s.subrange(0, q) + s.skip(find_from(s, '#', q))
    }
}

/// Removes the query part of a URL string.
pub fn strip_query(url: &str) -> (r: String)
    ensures
        r@ == strip_query_spec(url@),
{
    let v = chars_vec(url);
    let q = find_from_exec(&v, '?', 0);
    if q == v.len() {
        proof {
            assert(url@.subrange(0, q as int) =~= url@);
        }
        return url.substring_char(0, q).to_owned();
    }
    let h = find_from_exec(&v, '#', q);
    let mut r = url.substring_char(0, q).to_owned();
    r.append(url.substring_char(h, v.len()));
    proof {
        assert(url@.skip(h as int) =~= url@.subrange(h as int, url@.len() as int));
        assert(r@ =~= strip_query_spec(url@));
    }
    r
}

/// The `Origin` header value the credentials POST carries: the entry
/// response's scheme and host, composed as a browser would send them.
pub open spec fn origin_value_spec(host: Seq<char>, scheme: Seq<char>) -> Seq<char> {
    scheme + "://"@ + host
}

/// Composes the `Origin` header value.
pub fn origin_value(host: &str, scheme: &str) -> (r: String)
    ensures
        r@ == origin_value_spec(host@, scheme@),
{
    let mut r = String::from_str(scheme);
    r.append("://");
    r.append(host);
    r
}

/// The login form's anti-forgery input, addressed by form and input name.
pub open spec fn auth_state_selector() -> Seq<char> {
    "form[name=f] input[name=AuthState]"@
}

/// The POST that submits the credentials: target URL, browser-like
/// navigation header values, and the form fields in order.
pub struct CredentialsPost {
    pub url: String,
    pub origin: String,
    pub referer: String,
    pub fields: Vec<(String, String)>,
}

/// The fields the credentials POST carries, in order.
pub open spec fn credentials_fields(login: LoginData, auth_state: Seq<char>) -> Seq<
    (Seq<char>, Seq<char>),
> {
    seq![
        ("username"@, login.username@),
        ("password"@, login.password@),
        ("totp"@, login.totp@),
        ("AuthState"@, auth_state),
    ]
}

/// Prepares the credentials POST from the entry page: extracts the
/// anti-forgery token by name, strips the query off the entry response's
/// final URL, and composes the navigation headers.  Fails when the token
/// input or its value is absent.
pub fn prepare_credentials_post(
    entry_body: &str,
    final_url: &str,
    host: &str,
    scheme: &str,
    login: &LoginData,
) -> (r: Result<CredentialsPost, AuthError>)
    ensures
        match r {
            Ok(post) => {
                &&& css_first_attr(entry_body@, auth_state_selector(), "value"@) matches Some(
                    Some(v),
                )
                &&& post.url@ == strip_query_spec(final_url@)
                &&& post.origin@ == origin_value_spec(host@, scheme@)
                &&& post.referer@ == final_url@
                &&& post.fields.deep_view() == credentials_fields(
                    *login,
                    (css_first_attr(entry_body@, auth_state_selector(), "value"@)->0)->0,
                )
            },
            Err(e) => match e {
                AuthError::AuthStateMissing => css_first_attr(
                    entry_body@,
                    auth_state_selector(),
                    "value"@,
                ) is None,
                AuthError::AuthStateValueMissing => css_first_attr(
                    entry_body@,
                    auth_state_selector(),
                    "value"@,
                ) matches Some(o) && o is None,
                _ => false,
            },
        },
{
    let auth_state = match select_first_attr(entry_body, "form[name=f] input[name=AuthState]", "value") {
        None => {
            return Err(AuthError::AuthStateMissing);
        },
        Some(None) => {
            return Err(AuthError::AuthStateValueMissing);
        },
        Some(Some(v)) => v,
    };
    let mut fields: Vec<(String, String)> = Vec::new();
    fields.push((String::from_str("username"), login.username.clone()));
    fields.push((String::from_str("password"), login.password.clone()));
    fields.push((String::from_str("totp"), login.totp.clone()));
    fields.push((String::from_str("AuthState"), auth_state));
    let post = CredentialsPost {
        url: strip_query(final_url),
        origin: origin_value(host, scheme),
        referer: String::from_str(final_url),
        fields,
    };
    proof {
        assert(post.fields.deep_view() =~~= credentials_fields(
            *login,
            (css_first_attr(entry_body@, auth_state_selector(), "value"@)->0)->0,
        ));
    }
    Ok(post)
}


/// The page title of the provider's response to the credentials POST.
pub open spec fn title_selector() -> Seq<char> {
    "title"@
}

/// The inline error element shown when the login was rejected.
pub open spec fn error_box_selector() -> Seq<char> {
    ".message-box.error"@
}

/// The auto-submitting relay form of the SAML handoff.
pub open spec fn relay_form_selector() -> Seq<char> {
    "form[method=post]"@
}

/// The response's title, trimmed; `None` when the page carries none.
pub open spec fn response_title(body: Seq<char>) -> Option<Seq<char>> {
    match css_first_text(body, title_selector()) {
        Some(t) => Some(trim_spec(t)),
        None => None,
    }
}

/// The first entry with key `k`, or the length when the key is absent.
pub open spec fn find_key(entries: Seq<(Seq<char>, Seq<char>)>, k: Seq<char>) -> int
    decreases entries.len(),
{
    if entries.len() == 0 {
        0
    } else if entries[0].0 == k {
        0
    } else {
        1 + find_key(entries.drop_first(), k)
    }
}

/// The entries with `k` set to `v`: overwritten in place where `k` is
/// already present, appended otherwise.
pub open spec fn upsert(
    entries: Seq<(Seq<char>, Seq<char>)>,
    k: Seq<char>,
    v: Seq<char>,
) -> Seq<(Seq<char>, Seq<char>)> {
    let i = find_key(entries, k);
    if i < entries.len() {
        entries.update(i, (k, v))
    } else {
        entries.push((k, v))
    }
}

/// The relay fields collected from the form's inputs, processed in order:
/// an input counts only with both a name and a value, and a repeated name
/// keeps its first position with the last value, as a keyed insert does.
pub open spec fn relay_fields_from(
    inputs: Seq<(Option<Seq<char>>, Option<Seq<char>>)>,
    acc: Seq<(Seq<char>, Seq<char>)>,
) -> Seq<(Seq<char>, Seq<char>)>
    decreases inputs.len(),
{
    if inputs.len() == 0 {
        acc
    } else {
        let next = match inputs[0] {
            (Some(n), Some(v)) => upsert(acc, n, v),
            _ => acc,
        };
        relay_fields_from(inputs.drop_first(), next)
    }
}

proof fn lemma_find_key_skip(entries: Seq<(Seq<char>, Seq<char>)>, k: Seq<char>, i: int)
    requires
        0 <= i <= entries.len(),
        forall|m: int| 0 <= m < i ==> (#[trigger] entries[m]).0 != k,
    ensures
        find_key(entries, k) == i + find_key(entries.skip(i), k),
    decreases i,
{
    if i == 0 {
        assert(entries.skip(0) =~= entries);
    } else {
        assert(entries[0].0 != k);
        lemma_find_key_skip(entries.drop_first(), k, i - 1);
        assert(entries.drop_first().skip(i - 1) =~= entries.skip(i));
        assert(forall|m: int|
            0 <= m < i - 1 ==> (#[trigger] entries.drop_first()[m]) == entries[m + 1]);
    }
}

fn upsert_field(out: &mut Vec<(String, String)>, k: String, v: String)
    ensures
        final(out).deep_view() == upsert(old(out).deep_view(), k@, v@),
{
    let ghost entries = old(out).deep_view();
    let n = out.len();
    let mut i: usize = 0;
    while i < n
        invariant
            0 <= i <= n,
            n == out@.len(),
            *out == *old(out),
            entries == old(out).deep_view(),
            entries.len() == n,
            forall|m: int| 0 <= m < i ==> (#[trigger] entries[m]).0 != k@,
        decreases n - i,
    {
        if out[i].0 == k {
            proof {
                assert(entries[i as int].0 == k@);
                lemma_find_key_skip(entries, k@, i as int);
                assert(entries.skip(i as int)[0] == entries[i as int]);
                assert(find_key(entries.skip(i as int), k@) == 0);
            }
            out.set(i, (k, v));
            proof {
                assert forall|m: int|
                    0 <= m < entries.len() && m != i implies out.deep_view()[m] == entries[m] by {
                    assert(out@[m] == old(out)@[m]);
                }
                assert(out.deep_view() =~~= upsert(entries, k@, v@));
            }
            return ;
        }
        proof {
            assert(entries[i as int].0 == old(out)@[i as int].0@);
        }
        i += 1;
    }
    proof {
        lemma_find_key_skip(entries, k@, n as int);
        assert(entries.skip(n as int).len() == 0);
        assert(find_key(entries, k@) == n);
    }
    let ghost before = out.deep_view();
    out.push((k, v));
    proof {
        assert forall|m: int| 0 <= m < before.len() implies out.deep_view()[m] == before[m] by {
            assert(out@[m] == out@.drop_last()[m]);
        }
        assert(out.deep_view() =~~= upsert(entries, k@, v@));
    }
}

fn collect_relay_fields(inputs: &Vec<(Option<String>, Option<String>)>) -> (out: Vec<
    (String, String),
>)
    ensures
        out.deep_view() == relay_fields_from(inputs.deep_view(), Seq::empty()),
{
    let ghost goal = relay_fields_from(inputs.deep_view(), Seq::empty());
    let mut out: Vec<(String, String)> = Vec::new();
    let mut i: usize = 0;
    proof {
        assert(inputs.deep_view().skip(0) =~= inputs.deep_view());
        assert(out.deep_view() =~= Seq::<(Seq<char>, Seq<char>)>::empty());
    }
    while i < inputs.len()
        invariant
            0 <= i <= inputs@.len(),
            inputs.deep_view().len() == inputs@.len(),
            goal == relay_fields_from(inputs.deep_view(), Seq::empty()),
            relay_fields_from(inputs.deep_view().skip(i as int), out.deep_view()) == goal,
        decreases inputs@.len() - i,
    {
        let ghost remaining = inputs.deep_view().skip(i as int);
        proof {
            assert(remaining[0] == inputs.deep_view()[i as int]);
            assert(inputs.deep_view()[i as int] == inputs@[i as int].deep_view());
            assert(remaining.drop_first() =~= inputs.deep_view().skip(i as int + 1));
        }
        match (&inputs[i].0, &inputs[i].1) {
            (Some(n), Some(v)) => {
                proof {
                    assert(inputs@[i as int].deep_view() == (
                        Some(n@),
                        Some(v@),
                    ));
                }
                upsert_field(&mut out, n.clone(), v.clone());
            },
            _ => {
                proof {
                    assert(!(inputs@[i as int].deep_view() matches (Some(_), Some(_))));
                }
            },
        }
        i += 1;
    }
    proof {
        assert(inputs.deep_view().skip(inputs@.len() as int).len() == 0);
    }
    out
}

/// The POST that completes the SAML handoff.
pub struct RelayPost {
    pub url: String,
    pub fields: Vec<(String, String)>,
}

/// Classifies the provider's response to the credentials POST by its title
/// and, on the success path, collects the relay form.  A title meaning
/// "still on the login page" surfaces the inline error message; the relay
/// title hands back the form's action and its fields; any other title is an
/// unrecognized response.
pub fn process_credentials_response(body: &str) -> (r: Result<RelayPost, AuthError>)
    ensures
        match r {
            Ok(post) => {
                &&& response_title(body@) == Some("Sende Nachricht"@)
                &&& css_form_parts(body@, relay_form_selector()) matches Some(parts)
                &&& (css_form_parts(body@, relay_form_selector())->0).0 matches Some(a)
                &&& post.url@ == ((css_form_parts(body@, relay_form_selector())->0).0)->0
                &&& post.fields.deep_view() == relay_fields_from(
                    (css_form_parts(body@, relay_form_selector())->0).1,
                    Seq::empty(),
                )
            },
            Err(e) => match e {
                AuthError::TitleMissing => response_title(body@) is None,
                AuthError::LoginRejected(msg) => {
                    &&& response_title(body@) == Some("TU Wien Login"@)
                    &&& css_first_inner_html(body@, error_box_selector()) == Some(msg@)
                },
                AuthError::ErrorMessageMissing => {
                    &&& response_title(body@) == Some("TU Wien Login"@)
                    &&& css_first_inner_html(body@, error_box_selector()) is None
                },
                AuthError::UnexpectedTitle(t) => {
                    &&& response_title(body@) == Some(t@)
                    &&& t@ != "TU Wien Login"@
                    &&& t@ != "Sende Nachricht"@
                },
                AuthError::RelayFormMissing => {
                    &&& response_title(body@) == Some("Sende Nachricht"@)
                    &&& css_form_parts(body@, relay_form_selector()) is None
                },
                AuthError::RelayActionMissing => {
                    &&& response_title(body@) == Some("Sende Nachricht"@)
                    &&& css_form_parts(body@, relay_form_selector()) matches Some(parts)
                    &&& parts.0 is None
                },
                _ => false,
            },
        },
{
    let title = match select_first_text(body, "title") {
        None => {
            return Err(AuthError::TitleMissing);
        },
        Some(t) => trim_str(t.as_str()),
    };
    let still_login = String::from_str("TU Wien Login");
    let relaying = String::from_str("Sende Nachricht");
    if title == still_login {
        return match select_first_inner_html(body, ".message-box.error") {
            Some(msg) => Err(AuthError::LoginRejected(msg)),
            None => Err(AuthError::ErrorMessageMissing),
        };
    }
    if !(title == relaying) {
        return Err(AuthError::UnexpectedTitle(title));
    }
    match select_form_parts(body, "form[method=post]") {
        None => Err(AuthError::RelayFormMissing),
        Some((action, inputs)) => match action {
            None => Err(AuthError::RelayActionMissing),
            Some(url) => {
                let fields = collect_relay_fields(&inputs);
                Ok(RelayPost { url, fields })
            },
        },
    }
}


/// The landing page's client-config script, by its fixed structural
/// position: the third script under the document head.
pub open spec fn key_script_selector() -> Seq<char> {
    "html > head > script:nth-of-type(3)"@
}

/// The assignment that opens the client-config line.
pub open spec fn mcfg_prefix() -> Seq<char> {
    "M.cfg = "@
}

/// A client-config assignment line starts at `i`: at the script's start or
/// right after a line break, opening with the assignment.
pub open spec fn cfg_line_at(s: Seq<char>, i: int) -> bool {
    &&& 0 <= i <= s.len()
    &&& (i == 0 || s[i - 1] == '\n')
    &&& has_prefix(s.skip(i), mcfg_prefix())
}

/// The first client-config line start at or after `from`, or the length.
pub open spec fn first_cfg_line(s: Seq<char>, from: int) -> int
    decreases s.len() - from when 0 <= from <= s.len()
{
    if from < s.len() && !cfg_line_at(s, from) {
        first_cfg_line(s, from + 1)
    } else {
        from
    }
}

/// The JSON text of the client-config object: on the first assignment line,
/// what stands between the assignment and the first `;` of that line.
/// `None` where no line assigns the object or the assignment is unterminated.
pub open spec fn key_json_text(s: Seq<char>) -> Option<Seq<char>> {
    let i = first_cfg_line(s, 0);
    if i >= s.len() {
        None
    } else {
        let start = i + mcfg_prefix().len();
        let line_end = find_from(s, '\n', i);
        let content_end = if line_end > start && s[line_end - 1] == '\r' {
            line_end - 1
        } else {
            line_end
        };
        let semi = find_from(s, ';', start);
        if semi < content_end {
            Some(s.subrange(start, semi))
        } else {
            None
        }
    }
}

fn prefix_at(v: &Vec<char>, i: usize, p: &Vec<char>) -> (r: bool)
    requires
        i <= v@.len(),
    ensures
        r == has_prefix(v@.skip(i as int), p@),
{
    if p.len() > v.len() - i {
        return false;
    }
    let mut k: usize = 0;
    while k < p.len()
        invariant
            0 <= k <= p@.len(),
            i + p.len() <= v.len(),
            forall|m: int| 0 <= m < k ==> v@[i + m] == p@[m],
        decreases p@.len() - k,
    {
        if v[i + k] != p[k] {
            proof {
                assert(v@.skip(i as int)[k as int] == v@[i + k]);
            }
            return false;
        }
        k += 1;
    }
    proof {
        assert(v@.skip(i as int).subrange(0, p@.len() as int) =~= p@);
    }
    true
}

/// Reads the per-session security token out of the landing page: the third
/// head script, its client-config assignment line, the assigned JSON object,
/// and that object's session-key field.  The scripted position and variable
/// name are load-bearing assumptions about the portal's page structure;
/// every failure is terminal.
pub fn extract_session_key(landing_body: &str) -> (r: Result<String, AuthError>)
    ensures
        match r {
            Ok(key) => {
                &&& css_first_text(landing_body@, key_script_selector()) matches Some(raw)
                &&& key_json_text(trim_spec(raw)) matches Some(t)
                &&& json_parse(t) matches Some(m)
                &&& model_str(member(json_parse(key_json_text(trim_spec(css_first_text(
                    landing_body@,
                    key_script_selector(),
                )->0))->0)->0, "sesskey"@)) == Some(key@)
            },
            Err(e) => match e {
                AuthError::KeyScriptMissing => css_first_text(
                    landing_body@,
                    key_script_selector(),
                ) is None,
                AuthError::KeyLineMissing => {
                    &&& css_first_text(landing_body@, key_script_selector()) matches Some(raw)
                    &&& key_json_text(trim_spec(raw)) is None
                },
                AuthError::KeyJsonInvalid => {
                    &&& css_first_text(landing_body@, key_script_selector()) matches Some(raw)
                    &&& key_json_text(trim_spec(raw)) matches Some(t)
                    &&& json_parse(t) is None
                },
                AuthError::KeyMissing => {
                    &&& css_first_text(landing_body@, key_script_selector()) matches Some(raw)
                    &&& key_json_text(trim_spec(raw)) matches Some(t)
                    &&& json_parse(t) matches Some(m)
                    &&& model_str(member(json_parse(key_json_text(trim_spec(css_first_text(
                        landing_body@,
                        key_script_selector(),
                    )->0))->0)->0, "sesskey"@)) is None
                },
                _ => false,
            },
        },
{
    let raw = match select_first_text(landing_body, "html > head > script:nth-of-type(3)") {
        None => {
            return Err(AuthError::KeyScriptMissing);
        },
        Some(t) => t,
    };
    let script = trim_str(raw.as_str());
    let v = chars_vec(script.as_str());
    let mcfg = chars_vec("M.cfg = ");
    let mut i: usize = 0;
    while i < v.len() && !((i == 0 || v[i - 1] == '\n') && prefix_at(&v, i, &mcfg))
        invariant
            0 <= i <= v@.len(),
            v@ == script@,
            mcfg@ == mcfg_prefix(),
            first_cfg_line(script@, 0) == first_cfg_line(script@, i as int),
        decreases v@.len() - i,
    {
        i += 1;
    }
    if i == v.len() {
        proof {
            assert(first_cfg_line(script@, 0) == v@.len());
        }
        return Err(AuthError::KeyLineMissing);
    }
    proof {
        assert(cfg_line_at(script@, i as int));
        assert(first_cfg_line(script@, 0) == i as int);
        assert(mcfg_prefix().len() <= script@.skip(i as int).len());
    }
    let start = i + mcfg.len();
    let line_end = find_from_exec(&v, '\n', i);
    let content_end: usize = if line_end > start && v[line_end - 1] == '\r' {
        line_end - 1
    } else {
        line_end
    };
    let semi = find_from_exec(&v, ';', start);
    if semi >= content_end {
        return Err(AuthError::KeyLineMissing);
    }
    let json_text = script.substring_char(start, semi);
    match parse_json(json_text) {
        None => Err(AuthError::KeyJsonInvalid),
        Some(node) => match get_member(&node, "sesskey") {
            None => Err(AuthError::KeyMissing),
            Some(value) => match node_str(value) {
                None => Err(AuthError::KeyMissing),
                Some(key) => Ok(key.clone()),
            },
        },
    }
}

} // verus!
