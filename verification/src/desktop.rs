//! Logic of the desktop shell: autostart on this platform, the preferences
//! file, the status records shown to the UI, model-list normalisation, and
//! the chat probe (its request, auth header and reply preview).

use vstd::prelude::*;
use crate::config::{UpstreamApiFormat, UpstreamConfig, UpstreamConfigV};
use crate::config::file::{parse_toml_text, render_toml, str_field, toml_parse, toml_text};
use crate::convert::requests::or_empty;
use crate::json::{Json, JsonV, jentries, jget, jstr, jarr, jviews, json_parse, lemma_jentries_empty, lemma_jviews, parse_json_text, push_member};
use crate::text::{chars_of, concat, lower_spec, owned, slice_chars, starts_with, starts_with_spec, str_eq, string_of, strings_view, to_ascii_lowercase, trim, trim_end_char, trim_end_by, trim_spec};

verus! {

// ─── autostart ───

/// Whether the app starts with the session: never on this platform.
pub fn is_enabled() -> (r: Result<bool, String>)
    ensures
        r == Ok::<bool, String>(false),
{
    Ok(false)
}

/// Turning autostart on or off is not available on this platform.
pub fn set_enabled(enabled: bool) -> (r: Result<(), String>)
    ensures
        r matches Err(e) && e@ == "autostart toggle is not implemented on this platform yet"@,
{
    Err(owned("autostart toggle is not implemented on this platform yet"))
}

// ─── preferences ───

/// The name of the preferences file, kept next to the proxy config.
pub const PREFERENCES_FILE_NAME: &'static str = "desktop_preferences.toml";

/// Desktop-only preferences.
#[derive(Debug, Clone)]
pub struct DesktopPreferences {
    /// BCP-47 language tag selected in the UI (`"en"`, `"zh"`).
    pub language: Option<String>,
}

impl Default for DesktopPreferences {
    fn default() -> (r: Self)
        ensures
            r.language is None,
    {
        DesktopPreferences { language: None }
    }
}

/// The language a preferences document sets: its `language` string, if the
/// document parses and holds one; nothing otherwise.
pub open spec fn preferences_language(content: Seq<char>) -> Option<Seq<char>> {
    match toml_parse(content) {
        Some(t) => match str_field(t, "language"@) {
            Some(Some(l)) => Some(l),
            _ => None,
        },
        None => None,
    }
}

impl DesktopPreferences {
    /// Reads preferences from the text of the preferences file; an
    /// unreadable document gives the defaults.
    pub fn from_toml_str(content: &str) -> (r: Self)
        ensures
            match r.language {
                Some(l) => preferences_language(content@) == Some(l@),
                None => preferences_language(content@) is None,
            },
    {
        match parse_toml_text(content) {
            Ok(tree) => match tree.get("language") {
                Some(v) => match v.as_str() {
                    Some(l) => DesktopPreferences { language: Some(owned(l)) },
                    None => DesktopPreferences { language: None },
                },
                None => DesktopPreferences { language: None },
            },
            Err(_) => DesktopPreferences { language: None },
        }
    }

    /// The tree written for these preferences: `language` when set.
    pub fn to_tree(&self) -> (r: Json)
        ensures
            r@ == JsonV::Object(
                match self.language {
                    Some(l) => seq![("language"@, JsonV::Str(l@))],
                    None => Seq::empty(),
                },
            ),
    {
        let mut es: Vec<(String, Json)> = Vec::new();
        proof {
            lemma_jentries_empty(es@);
        }
        match &self.language {
            Some(l) => {
                push_member(&mut es, "language", Json::Str(l.clone()));
                assert(jentries(es@) =~= seq![("language"@, JsonV::Str(l@))]);
            },
            None => {},
        }
        Json::Object(es)
    }

    /// These preferences as a TOML document.
    pub fn to_toml_string(&self) -> (r: Result<String, String>)
        ensures
            r matches Ok(s) ==> toml_text(
                JsonV::Object(
                    match self.language {
                        Some(l) => seq![("language"@, JsonV::Str(l@))],
                        None => Seq::empty(),
                    },
                ),
            ) == Some(s@),
        r is Err <==> toml_text(
            JsonV::Object(
                match self.language {
                    Some(l) => seq![("language"@, JsonV::Str(l@))],
                    None => Seq::empty(),
                },
            ),
        ) is None,
    {
        let t = self.to_tree();
        render_toml(&t)
    }
}

/// The directory part of a path (`Path::parent`), if it has one.
pub uninterp spec fn path_parent(p: Seq<char>) -> Option<Seq<char>>;

/// A path joined with a file name (`Path::join`).
pub uninterp spec fn path_join(dir: Seq<char>, name: Seq<char>) -> Seq<char>;

/// `Path::new(p).parent()` as text.
///
/// Trusted: calls `std::path::Path::parent`; the contract only names its
/// result.
#[verifier::external_body]
fn parent_of(p: &str) -> (r: Option<String>)
    ensures
        r matches Some(d) ==> path_parent(p@) == Some(d@),
        r is None ==> path_parent(p@) is None,
{
    std::path::Path::new(p).parent().map(|d| d.to_string_lossy().into_owned())
}

/// `Path::new(dir).join(name)` as text.
///
/// Trusted: calls `std::path::Path::join`; the contract only names its
/// result.
#[verifier::external_body]
fn join_path(dir: &str, name: &str) -> (r: String)
    ensures
        r@ == path_join(dir@, name@),
{
    std::path::Path::new(dir).join(name).to_string_lossy().into_owned()
}

/// Where the preferences file lives: next to the config file.
pub fn preferences_path(config_path: &str) -> (r: String)
    ensures
        r@ == path_join(or_empty(path_parent(config_path@)), "desktop_preferences.toml"@),
{
    let dir = match parent_of(config_path) {
        Some(d) => d,
        None => String::new(),
    };
    join_path(dir.as_str(), PREFERENCES_FILE_NAME)
}

// ─── status records ───

/// Static facts about the desktop runtime.
#[derive(Debug, Clone)]
pub struct RuntimeInfo {
    pub version: &'static str,
    pub config_path: String,
    pub config_exists: bool,
    pub platform: &'static str,
}

/// The embedded server's status.
#[derive(Debug, Clone)]
pub struct ServerStatus {
    pub running: bool,
    pub address: Option<String>,
    pub port: Option<u16>,
    /// Seconds since the server started; `0` when not running.
    pub uptime_seconds: u64,
}

impl Default for ServerStatus {
    fn default() -> (r: Self)
        ensures
            !r.running,
            r.address is None,
            r.port is None,
            r.uptime_seconds == 0,
    {
        ServerStatus { running: false, address: None, port: None, uptime_seconds: 0 }
    }
}

/// The models an upstream lists, sorted and without duplicates, and how
/// long the request took.
#[derive(Debug, Clone)]
pub struct FetchedModels {
    pub models: Vec<String>,
    pub latency_ms: u64,
}

/// The result of a chat round-trip against an upstream.
#[derive(Debug, Clone)]
pub struct ChatProbeResult {
    pub ok: bool,
    pub status: u16,
    pub latency_ms: u64,
    pub model: String,
    pub preview: Option<String>,
    pub message: Option<String>,
}

// ─── model lists ───

/// `a < b` in the order of `String`: lexicographic by character.
pub open spec fn text_lt(a: Seq<char>, b: Seq<char>) -> bool
    decreases a.len(),
{
    if a.len() == 0 {
        b.len() > 0
    } else if b.len() == 0 {
        false
    } else if a[0] != b[0] {
        a[0] < b[0]
    } else {
        text_lt(a.drop_first(), b.drop_first())
    }
}

pub proof fn lemma_text_lt_irreflexive(a: Seq<char>)
    ensures
        !text_lt(a, a),
    decreases a.len(),
{
    if a.len() > 0 {
        lemma_text_lt_irreflexive(a.drop_first());
    }
}

pub proof fn lemma_text_lt_trichotomy(a: Seq<char>, b: Seq<char>)
    ensures
        a == b || text_lt(a, b) || text_lt(b, a),
        !(text_lt(a, b) && text_lt(b, a)),
    decreases a.len(),
{
    if a.len() > 0 && b.len() > 0 {
        if a[0] == b[0] {
            lemma_text_lt_trichotomy(a.drop_first(), b.drop_first());
            if a.drop_first() == b.drop_first() {
                assert(a =~= seq![a[0]] + a.drop_first());
                assert(b =~= seq![b[0]] + b.drop_first());
            }
        }
    } else if a.len() == 0 && b.len() == 0 {
        assert(a =~= b);
    }
}

pub proof fn lemma_text_lt_transitive(a: Seq<char>, b: Seq<char>, c: Seq<char>)
    requires
        text_lt(a, b),
        text_lt(b, c),
    ensures
        text_lt(a, c),
    decreases a.len(),
{
    if a.len() > 0 && b.len() > 0 && c.len() > 0 && a[0] == b[0] && b[0] == c[0] {
        lemma_text_lt_transitive(a.drop_first(), b.drop_first(), c.drop_first());
    }
}

/// `a < b` for strings.
pub(crate) fn str_lt(a: &str, b: &str) -> (r: bool)
    ensures
        r == text_lt(a@, b@),
{
    let av = chars_of(a);
    let bv = chars_of(b);
    let mut i: usize = 0;
    assert(av@.skip(0) =~= av@);
    assert(bv@.skip(0) =~= bv@);
    while i < av.len() && i < bv.len() && av[i] == bv[i]
        invariant
            i <= av@.len(),
            i <= bv@.len(),
            text_lt(a@, b@) == text_lt(av@.skip(i as int), bv@.skip(i as int)),
            av@ == a@,
            bv@ == b@,
        decreases av.len() - i,
    {
        assert(av@.skip(i as int).drop_first() =~= av@.skip(i + 1));
        assert(bv@.skip(i as int).drop_first() =~= bv@.skip(i + 1));
        i = i + 1;
    }
    if i == av.len() {
        i < bv.len()
    } else if i == bv.len() {
        false
    } else {
        av[i] < bv[i]
    }
}

/// Strictly increasing: sorted without duplicates.
pub open spec fn strictly_sorted(v: Seq<Seq<char>>) -> bool {
    forall|i: int, j: int| 0 <= i < j < v.len() ==> text_lt(#[trigger] v[i], #[trigger] v[j])
}

/// `models.sort(); models.dedup();`: the same set of ids, in increasing
/// order, each once.
pub fn sort_dedup_models(models: Vec<String>) -> (r: Vec<String>)
    ensures
        strictly_sorted(strings_view(r@)),
        forall|x: Seq<char>| #[trigger] strings_view(r@).contains(x) <==> strings_view(models@).contains(x),
{
    let ghost mv = strings_view(models@);
    let mut out: Vec<String> = Vec::new();
    let mut i: usize = 0;
    while i < models.len()
        invariant
            i <= models@.len(),
            mv == strings_view(models@),
            strictly_sorted(strings_view(out@)),
            forall|x: Seq<char>| #[trigger] strings_view(out@).contains(x) <==> mv.take(i as int).contains(x),
        decreases models.len() - i,
    {
        let ghost ov = strings_view(out@);
        let m = models[i].as_str();
        assert(mv[i as int] == m@);
        // position of the first id not below `m`
        let mut p: usize = 0;
        while p < out.len() && str_lt(out[p].as_str(), m)
            invariant
                p <= out@.len(),
                ov == strings_view(out@),
                forall|q: int| 0 <= q < p ==> text_lt(#[trigger] ov[q], m@),
            decreases out.len() - p,
        {
            p = p + 1;
        }
        let duplicate = p < out.len() && str_eq(out[p].as_str(), m);
        proof {
            assert(mv.take(i + 1) =~= mv.take(i as int).push(m@));
            if p < out@.len() {
                assert(!text_lt(ov[p as int], m@));
                lemma_text_lt_trichotomy(ov[p as int], m@);
            }
        }
        if !duplicate {
            out.insert(p, owned(m));
            proof {
                let nv = strings_view(out@);
                assert(nv =~= ov.insert(p as int, m@));
                assert forall|a: int, b: int| 0 <= a < b < nv.len() implies text_lt(#[trigger] nv[a], #[trigger] nv[b]) by {
                    if b < p {
                        assert(nv[a] == ov[a] && nv[b] == ov[b]);
                    } else if b == p {
                        assert(nv[a] == ov[a]);
                    } else if a < p {
                        assert(nv[a] == ov[a] && nv[b] == ov[b - 1]);
                        if p < ov.len() {
                            assert(text_lt(m@, ov[p as int]));
                            if b - 1 > p {
                                lemma_text_lt_transitive(m@, ov[p as int], ov[b - 1]);
                            }
                            lemma_text_lt_transitive(ov[a], m@, ov[b - 1]);
                        }
                    } else if a == p {
                        assert(nv[b] == ov[b - 1]);
                        assert(text_lt(m@, ov[p as int]));
                        if b - 1 > p {
                            lemma_text_lt_transitive(m@, ov[p as int], ov[b - 1]);
                        }
                    } else {
                        assert(nv[a] == ov[a - 1] && nv[b] == ov[b - 1]);
                    }
                }
                let t1 = mv.take(i + 1);
                assert(t1[i as int] == m@);
                assert(nv[p as int] == m@);
                assert forall|x: Seq<char>| nv.contains(x) implies t1.contains(x) by {
                    let q = choose|q: int| 0 <= q < nv.len() && nv[q] == x;
                    if q < p {
                        assert(ov[q] == x);
                        assert(ov.contains(x));
                        let t0 = mv.take(i as int);
                        assert(t0.contains(x));
                        let w = choose|w: int| 0 <= w < t0.len() && t0[w] == x;
                        assert(t1[w] == x);
                    } else if q > p {
                        assert(ov[q - 1] == x);
                        assert(ov.contains(x));
                        let t0 = mv.take(i as int);
                        assert(t0.contains(x));
                        let w = choose|w: int| 0 <= w < t0.len() && t0[w] == x;
                        assert(t1[w] == x);
                    } else {
                        assert(t1[i as int] == x);
                    }
                }
                assert forall|x: Seq<char>| t1.contains(x) implies nv.contains(x) by {
                    let q = choose|q: int| 0 <= q < t1.len() && t1[q] == x;
                    if q < i {
                        let t0 = mv.take(i as int);
                        assert(t0[q] == x);
                        assert(t0.contains(x));
                        assert(ov.contains(x));
                        let w = choose|w: int| 0 <= w < ov.len() && ov[w] == x;
                        if w < p {
                            assert(nv[w] == x);
                        } else {
                            assert(nv[w + 1] == x);
                        }
                    } else {
                        assert(nv[p as int] == x);
                    }
                }
            }
        } else {
            proof {
                assert forall|x: Seq<char>| ov.contains(x) <==> mv.take(i + 1).contains(x) by {
                    if mv.take(i + 1).contains(x) {
                        let t1 = mv.take(i + 1);
                        let q = choose|q: int| 0 <= q < t1.len() && t1[q] == x;
                        if q < i {
                            assert(mv.take(i as int)[q] == x);
                        } else {
                            assert(ov[p as int] == x);
                        }
                    }
                    if ov.contains(x) {
                        assert(mv.take(i as int).contains(x));
                        let t0 = mv.take(i as int);
                        let q = choose|q: int| 0 <= q < t0.len() && t0[q] == x;
                        assert(mv.take(i + 1)[q] == x);
                    }
                }
            }
        }
        i = i + 1;
    }
    assert(mv.take(mv.len() as int) =~= mv);
    out
}

// ─── chat probe ───

/// The auth header a desktop probe sends, if any: none without an API key;
/// the header is `Authorization` when none is configured, and for
/// `Authorization` (any case) the key gets a `Bearer ` prefix unless it
/// already starts with one (any case), as the proxy does.
pub open spec fn probe_auth_header(u: UpstreamConfigV) -> Option<(Seq<char>, Seq<char>)> {
    if u.api_key.len() == 0 {
        None
    } else {
        let name = if u.auth_header.len() == 0 {
            "Authorization"@
        } else {
            u.auth_header
        };
        if lower_spec(name) == lower_spec("Authorization"@) && !starts_with_spec(lower_spec(u.api_key), "bearer "@) {
            Some((name, "Bearer "@ + u.api_key))
        } else {
            Some((name, u.api_key))
        }
    }
}

/// A desktop probe sends the same credentials as the proxy for any upstream
/// with a header name configured.
pub proof fn lemma_probe_auth_matches_proxy(u: UpstreamConfigV)
    requires
        u.auth_header.len() > 0,
    ensures
        probe_auth_header(u) == crate::upstream::auth_header_for(u),
{
    reveal_strlit("Authorization");
    reveal_strlit("authorization");
    assert(lower_spec("Authorization"@) =~= "authorization"@);
}

/// The auth header (name, value) a desktop probe sends, if any.
pub fn desktop_auth_header(upstream: &UpstreamConfig) -> (r: Option<(String, String)>)
    ensures
        r matches Some(h) ==> probe_auth_header(upstream@) == Some((h.0@, h.1@)),
        r is None ==> probe_auth_header(upstream@) is None,
{
    if upstream.api_key.unicode_len() == 0 {
        return None;
    }
    let name = if upstream.auth_header.unicode_len() == 0 {
        owned("Authorization")
    } else {
        upstream.auth_header.clone()
    };
    let lname = to_ascii_lowercase(name.as_str());
    let lauth = to_ascii_lowercase("Authorization");
    let lkey = to_ascii_lowercase(upstream.api_key.as_str());
    if str_eq(lname.as_str(), lauth.as_str()) && !starts_with(lkey.as_str(), "bearer ") {
        let value = concat("Bearer ", upstream.api_key.as_str());
        Some((name, value))
    } else {
        Some((name, upstream.api_key.clone()))
    }
}

/// The prompt a probe sends: the given one unless it is missing or blank.
pub open spec fn probe_prompt(prompt: Option<Seq<char>>) -> Seq<char> {
    match prompt {
        Some(p) => if trim_spec(p).len() > 0 {
            p
        } else {
            "Reply with the single word: pong"@
        },
        None => "Reply with the single word: pong"@,
    }
}

/// The endpoint of a chat probe: the upstream URL without trailing slashes,
/// then the format's chat path.
pub open spec fn probe_endpoint(url: Seq<char>, format: UpstreamApiFormat) -> Seq<char> {
    trim_end_by(url, |x: char| x == '/') + match format {
        UpstreamApiFormat::ChatCompletions => "/chat/completions"@,
        UpstreamApiFormat::AnthropicMessages => "/messages"@,
    }
}

/// The body of a chat probe: one user message, at most 32 tokens, no
/// streaming.
pub open spec fn probe_body(model: Seq<char>, prompt: Seq<char>) -> JsonV {
    JsonV::Object(
        seq![
            ("model"@, JsonV::Str(model)),
            ("messages"@, JsonV::Array(seq![JsonV::Object(seq![("role"@, JsonV::Str("user"@)), ("content"@, JsonV::Str(prompt))])])),
            ("max_tokens"@, JsonV::Number("32"@)),
            ("stream"@, JsonV::Bool(false)),
        ],
    )
}

/// The request of a chat probe (endpoint and JSON body); a blank model is
/// refused.
pub fn chat_probe_request(
    url: &str,
    format: UpstreamApiFormat,
    model: &str,
    prompt: Option<&str>,
) -> (r: Result<(String, Json), String>)
    ensures
        r is Err <==> trim_spec(model@).len() == 0,
        r matches Err(e) ==> e@ == "model is required for chat probe"@,
        r matches Ok(p) ==> p.0@ == probe_endpoint(url@, format) && p.1@ == probe_body(
            model@,
            probe_prompt(
                match prompt {
                    Some(x) => Some(x@),
                    None => None,
                },
            ),
        ),
{
    if trim(model).unicode_len() == 0 {
        return Err(owned("model is required for chat probe"));
    }
    let prompt_text = match prompt {
        Some(p) => if trim(p).unicode_len() > 0 {
            owned(p)
        } else {
            owned("Reply with the single word: pong")
        },
        None => owned("Reply with the single word: pong"),
    };
    let base = trim_end_char(url, '/');
    let endpoint = match format {
        UpstreamApiFormat::ChatCompletions => concat(base.as_str(), "/chat/completions"),
        UpstreamApiFormat::AnthropicMessages => concat(base.as_str(), "/messages"),
    };
    assert(prompt_text@ == probe_prompt(
        match prompt {
            Some(x) => Some(x@),
            None => None,
        },
    ));
    let mut msg: Vec<(String, Json)> = Vec::new();
    proof {
        lemma_jentries_empty(msg@);
    }
    push_member(&mut msg, "role", Json::string("user"));
    push_member(&mut msg, "content", Json::Str(prompt_text));
    let ghost mv = jentries(msg@);
    assert(mv =~= seq![("role"@, JsonV::Str("user"@)), ("content"@, JsonV::Str(prompt_text@))]);
    let mut msgs: Vec<Json> = Vec::new();
    msgs.push(Json::Object(msg));
    proof {
        lemma_jviews(msgs@);
    }
    let ghost msgsv = jviews(msgs@);
    assert(msgsv =~= seq![JsonV::Object(mv)]);
    let mut es: Vec<(String, Json)> = Vec::new();
    proof {
        lemma_jentries_empty(es@);
    }
    push_member(&mut es, "model", Json::string(model));
    push_member(&mut es, "messages", Json::Array(msgs));
    push_member(&mut es, "max_tokens", Json::Number(owned("32")));
    push_member(&mut es, "stream", Json::Bool(false));
    proof {
        reveal_strlit("32");
    }
    let ghost pp = probe_prompt(
        match prompt {
            Some(x) => Some(x@),
            None => None,
        },
    );
    assert(jentries(es@) =~= (probe_body(model@, pp))->Object_0);
    let body = Json::Object(es);
    assert(endpoint@ == probe_endpoint(url@, format));
    Ok((endpoint, body))
}

/// The first `n` characters of a text.
pub fn take_chars(s: &str, n: usize) -> (r: String)
    ensures
        r@ == (if s@.len() <= n {
            s@
        } else {
            s@.take(n as int)
        }),
{
    let v = chars_of(s);
    if v.len() <= n {
        owned(s)
    } else {
        let t = slice_chars(&v, 0, n);
        assert(t@ =~= s@.take(n as int));
        string_of(&t)
    }
}

/// The first `n` characters of a text (all of it when it is shorter).
pub open spec fn first_chars(s: Seq<char>, n: nat) -> Seq<char> {
    if s.len() <= n {
        s
    } else {
        s.take(n as int)
    }
}

/// The error of a model-list request that the upstream refused: its status
/// and the first 300 characters of its body.
pub fn models_status_error(status: &str, body: &str) -> (r: String)
    ensures
        r@ == "upstream "@ + status@ + ": "@ + first_chars(body@, 300),
{
    let mut out = concat("upstream ", status);
    out.append(": ");
    let b = take_chars(body, 300);
    out.append(b.as_str());
    out
}

/// The error of a model list that could not be read: the parser's message
/// and the first 120 characters of the body.
pub fn models_parse_error(error: &str, body: &str) -> (r: String)
    ensures
        r@ == "parse /models response failed: "@ + error@ + "; body starts with: "@ + first_chars(body@, 120),
{
    let mut out = concat("parse /models response failed: ", error);
    out.append("; body starts with: ");
    let b = take_chars(body, 120);
    out.append(b.as_str());
    out
}

/// The concatenated `text` members of a list of blocks (blocks without a
/// string `text` contribute nothing).
pub open spec fn block_texts(blocks: Seq<JsonV>) -> Seq<char>
    decreases blocks.len(),
{
    if blocks.len() == 0 {
        Seq::empty()
    } else {
        block_texts(blocks.drop_last()) + match jstr(jget(blocks.last(), "text"@)) {
            Some(t) => t,
            None => Seq::empty(),
        }
    }
}

/// The reply text a probe response holds, by format: the first choice's
/// message content (Chat Completions) or the text blocks of the content
/// (Anthropic).
pub open spec fn reply_text(v: JsonV, format: UpstreamApiFormat) -> Option<Seq<char>> {
    match format {
        UpstreamApiFormat::ChatCompletions => match jarr(jget(v, "choices"@)) {
            Some(cs) => if cs.len() > 0 {
                match jget(cs[0], "message"@) {
                    Some(m) => jstr(jget(m, "content"@)),
                    None => None,
                }
            } else {
                None
            },
            None => None,
        },
        UpstreamApiFormat::AnthropicMessages => match jarr(jget(v, "content"@)) {
            Some(bs) => Some(block_texts(bs)),
            None => None,
        },
    }
}

/// The preview of a probe reply: the reply text, trimmed, at most 240
/// characters; none when the body is not JSON or the text is missing or
/// blank.
pub open spec fn chat_preview(body: Seq<char>, format: UpstreamApiFormat) -> Option<Seq<char>> {
    match json_parse(body) {
        Some(v) => preview_of_value(v, format),
        None => None,
    }
}

/// The preview of a parsed probe reply: its reply text, trimmed, at most
/// 240 characters; none when the text is missing or blank.
pub open spec fn preview_of_value(v: JsonV, format: UpstreamApiFormat) -> Option<Seq<char>> {
    match reply_text(v, format) {
        Some(t) => if trim_spec(t).len() == 0 {
            None
        } else if trim_spec(t).len() <= 240 {
            Some(trim_spec(t))
        } else {
            Some(trim_spec(t).take(240))
        },
        None => None,
    }
}

fn concat_block_texts(blocks: &Vec<Json>) -> (r: String)
    ensures
        r@ == block_texts(jviews(blocks@)),
{
    proof {
        lemma_jviews(blocks@);
    }
    let ghost bv = jviews(blocks@);
    let mut out = String::new();
    let mut i: usize = 0;
    while i < blocks.len()
        invariant
            i <= blocks@.len(),
            bv == jviews(blocks@),
            bv.len() == blocks@.len(),
            forall|j: int| 0 <= j < blocks@.len() ==> #[trigger] bv[j] == blocks@[j]@,
            out@ == block_texts(bv.take(i as int)),
        decreases blocks.len() - i,
    {
        assert(bv.take(i + 1).drop_last() =~= bv.take(i as int));
        assert(bv.take(i + 1).last() == blocks@[i as int]@);
        match blocks[i].get("text") {
            Some(t) => match t.as_str() {
                Some(s) => {
                    out.append(s);
                },
                None => {
                    assert(out@ =~= out@ + Seq::<char>::empty());
                },
            },
            None => {
                assert(out@ =~= out@ + Seq::<char>::empty());
            },
        }
        i = i + 1;
    }
    assert(bv.take(bv.len() as int) =~= bv);
    out
}

/// The preview of a probe reply (see [`chat_preview`]).
pub fn extract_chat_preview(body: &str, format: UpstreamApiFormat) -> (r: Option<String>)
    ensures
        r matches Some(p) ==> chat_preview(body@, format) == Some(p@),
        r is None ==> chat_preview(body@, format) is None,
{
    match parse_json_text(body) {
        Some(v) => chat_preview_of_value(&v, format),
        None => None,
    }
}

/// The preview of a parsed probe reply (see [`preview_of_value`]).
pub fn chat_preview_of_value(value: &Json, format: UpstreamApiFormat) -> (r: Option<String>)
    ensures
        r matches Some(p) ==> preview_of_value(value@, format) == Some(p@),
        r is None ==> preview_of_value(value@, format) is None,
{
    let text: String = match format {
        UpstreamApiFormat::ChatCompletions => {
            let choices = match value.get_array("choices") {
                Some(c) => c,
                None => {
                    return None;
                },
            };
            if choices.len() == 0 {
                return None;
            }
            proof {
                lemma_jviews(choices@);
            }
            let m = match choices[0].get("message") {
                Some(m) => m,
                None => {
                    return None;
                },
            };
            match m.get("content") {
                Some(c) => match c.as_str() {
                    Some(t) => owned(t),
                    None => {
                        return None;
                    },
                },
                None => {
                    return None;
                },
            }
        },
        UpstreamApiFormat::AnthropicMessages => {
            let blocks = match value.get_array("content") {
                Some(b) => b,
                None => {
                    return None;
                },
            };
            concat_block_texts(blocks)
        },
    };
    let trimmed = trim(text.as_str());
    if trimmed.unicode_len() == 0 {
        None
    } else {
        Some(take_chars(trimmed.as_str(), 240))
    }
}

} // verus!
