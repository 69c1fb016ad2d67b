//! The recording-page configuration: its data model, its extraction from the
//! page's embedded JSON, and the selection policies over it.
//!
//! A recording page embeds a script whose text, after fixed wrappers are
//! stripped, is a JSON object describing the recording: a title, caption
//! tracks, and media streams.  Every field the pipeline reads is optional in
//! the page; absence is data here, not an error — the selection policies
//! decide what absence means.

use vstd::prelude::*;
use crate::jsontree::{
    JsonNode, JsonModel, json_parse, member, model_str, model_u64, parse_json, get_member,
    node_str, node_u64, model_seq, lemma_model_seq_index, lemma_model_seq_len,
};
use crate::text::{has_prefix, has_suffix, chars_vec, has_prefix_exec, has_suffix_exec, opt_str_view};
use vstd::string::{StrSliceExecFns, StringExecFns};

verus! {

/// One caption track as the page describes it.
pub struct CaptionTrack {
    pub format: Option<String>,
    pub lang: Option<String>,
    pub url: Option<String>,
}

/// One container variant of a media stream.
pub struct StreamSource {
    pub src: Option<String>,
    pub width: Option<u64>,
    pub height: Option<u64>,
}

/// One media stream with its container variants.
pub struct MediaStream {
    pub role: Option<String>,
    pub mp4: Vec<StreamSource>,
}

/// The configuration of one recording page.
pub struct RecordingConfig {
    pub title: Option<String>,
    pub captions: Vec<CaptionTrack>,
    pub streams: Vec<MediaStream>,
}

/// The title the page carries under `metadata.title`.
pub open spec fn model_title(m: JsonModel) -> Option<Seq<char>> {
    model_str(member(member(m, "metadata"@), "title"@))
}

/// The track reflects one entry of the page's `captions` array.
pub open spec fn track_models(t: CaptionTrack, m: JsonModel) -> bool {
    &&& opt_str_view(t.format) == model_str(member(m, "format"@))
    &&& opt_str_view(t.lang) == model_str(member(m, "lang"@))
    &&& opt_str_view(t.url) == model_str(member(m, "url"@))
}

/// The source reflects one entry of a stream's `sources.mp4` array.
pub open spec fn source_models(s: StreamSource, m: JsonModel) -> bool {
    &&& opt_str_view(s.src) == model_str(member(m, "src"@))
    &&& s.width == model_u64(member(member(m, "res"@), "w"@))
    &&& s.height == model_u64(member(member(m, "res"@), "h"@))
}

/// The stream reflects one entry of the page's `streams` array.
pub open spec fn stream_models(s: MediaStream, m: JsonModel) -> bool {
    &&& opt_str_view(s.role) == model_str(member(m, "role"@))
    &&& match member(member(m, "sources"@), "mp4"@) {
        JsonModel::Arr(items) => {
            &&& s.mp4@.len() == items.len()
            &&& forall|i: int| 0 <= i < items.len() ==> source_models(#[trigger] s.mp4@[i], items[i])
        },
        _ => s.mp4@.len() == 0,
    }
}

/// The configuration reflects the page's JSON object.
pub open spec fn config_models(cfg: RecordingConfig, m: JsonModel) -> bool {
    &&& opt_str_view(cfg.title) == model_title(m)
    &&& match member(m, "captions"@) {
        JsonModel::Arr(items) => {
            &&& cfg.captions@.len() == items.len()
            &&& forall|i: int|
                0 <= i < items.len() ==> track_models(#[trigger] cfg.captions@[i], items[i])
        },
        _ => cfg.captions@.len() == 0,
    }
    &&& match member(m, "streams"@) {
        JsonModel::Arr(items) => {
            &&& cfg.streams@.len() == items.len()
            &&& forall|i: int|
                0 <= i < items.len() ==> stream_models(#[trigger] cfg.streams@[i], items[i])
        },
        _ => cfg.streams@.len() == 0,
    }
}

fn opt_string_of(n: &JsonNode, key: &str) -> (r: Option<String>)
    ensures
        opt_str_view(r) == model_str(member(n@, key@)),
{
    match get_member(n, key) {
        Some(v) => match node_str(v) {
            Some(s) => Some(s.clone()),
            None => None,
        },
        None => None,
    }
}

fn opt_u64_of(n: &JsonNode, outer: &str, key: &str) -> (r: Option<u64>)
    ensures
        r == model_u64(member(member(n@, outer@), key@)),
{
    match get_member(n, outer) {
        Some(v) => match get_member(v, key) {
            Some(w) => node_u64(w),
            None => None,
        },
        None => None,
    }
}

fn extract_track(n: &JsonNode) -> (t: CaptionTrack)
    ensures
        track_models(t, n@),
{
    CaptionTrack {
        format: opt_string_of(n, "format"),
        lang: opt_string_of(n, "lang"),
        url: opt_string_of(n, "url"),
    }
}

fn extract_source(n: &JsonNode) -> (s: StreamSource)
    ensures
        source_models(s, n@),
{
    let res_w = opt_u64_of(n, "res", "w");
    let res_h = opt_u64_of(n, "res", "h");
    StreamSource { src: opt_string_of(n, "src"), width: res_w, height: res_h }
}

fn extract_stream(n: &JsonNode) -> (s: MediaStream)
    ensures
        stream_models(s, n@),
{
    let role = opt_string_of(n, "role");
    let mut mp4: Vec<StreamSource> = Vec::new();
    match get_member(n, "sources") {
        Some(sources) => match get_member(sources, "mp4") {
            Some(node) => match node {
                JsonNode::Arr(items) => {
                    proof {
                        lemma_model_seq_len(items@);
                    }
                    let mut i: usize = 0;
                    while i < items.len()
                        invariant
                            0 <= i <= items@.len(),
                            node@ == JsonModel::Arr(model_seq(items@)),
                            model_seq(items@).len() == items@.len(),
                            mp4@.len() == i,
                            forall|m: int|
                                0 <= m < i ==> source_models(
                                    #[trigger] mp4@[m],
                                    model_seq(items@)[m],
                                ),
                        decreases items@.len() - i,
                    {
                        proof {
                            lemma_model_seq_index(items@, i as int);
                        }
                        mp4.push(extract_source(&items[i]));
                        i += 1;
                    }
                    MediaStream { role, mp4 }
                },
                _ => MediaStream { role, mp4 },
            },
            None => MediaStream { role, mp4 },
        },
        None => MediaStream { role, mp4 },
    }
}

/// Reads the configuration out of the parsed page JSON.  Absent or
/// differently shaped fields become empty options and empty lists.
pub fn extract_config(n: &JsonNode) -> (cfg: RecordingConfig)
    ensures
        config_models(cfg, n@),
{
    let title = match get_member(n, "metadata") {
        Some(meta) => opt_string_of(meta, "title"),
        None => None,
    };
    let mut captions: Vec<CaptionTrack> = Vec::new();
    match get_member(n, "captions") {
        Some(node) => match node {
            JsonNode::Arr(items) => {
                proof {
                    lemma_model_seq_len(items@);
                }
                let mut i: usize = 0;
                while i < items.len()
                    invariant
                        0 <= i <= items@.len(),
                        node@ == JsonModel::Arr(model_seq(items@)),
                        model_seq(items@).len() == items@.len(),
                        captions@.len() == i,
                        forall|m: int|
                            0 <= m < i ==> track_models(
                                #[trigger] captions@[m],
                                model_seq(items@)[m],
                            ),
                    decreases items@.len() - i,
                {
                    proof {
                        lemma_model_seq_index(items@, i as int);
                    }
                    captions.push(extract_track(&items[i]));
                    i += 1;
                }
            },
            _ => {},
        },
        None => {},
    }
    let mut streams: Vec<MediaStream> = Vec::new();
    match get_member(n, "streams") {
        Some(node) => match node {
            JsonNode::Arr(items) => {
                proof {
                    lemma_model_seq_len(items@);
                }
                let mut i: usize = 0;
                while i < items.len()
                    invariant
                        0 <= i <= items@.len(),
                        node@ == JsonModel::Arr(model_seq(items@)),
                        model_seq(items@).len() == items@.len(),
                        streams@.len() == i,
                        forall|m: int|
                            0 <= m < i ==> stream_models(
                                #[trigger] streams@[m],
                                model_seq(items@)[m],
                            ),
                    decreases items@.len() - i,
                {
                    proof {
                        lemma_model_seq_index(items@, i as int);
                    }
                    streams.push(extract_stream(&items[i]));
                    i += 1;
                }
            },
            _ => {},
        },
        None => {},
    }
    RecordingConfig { title, captions, streams }
}


/// A track the caption policy accepts: VTT format, target language.
pub open spec fn is_selected_caption(t: CaptionTrack) -> bool {
    &&& opt_str_view(t.format) == Some("vtt"@)
    &&& opt_str_view(t.lang) == Some("de"@)
}

/// The first track the caption policy accepts.
pub open spec fn caption_choice(captions: Seq<CaptionTrack>) -> Option<CaptionTrack>
    decreases captions.len(),
{
    if captions.len() == 0 {
        None
    } else if is_selected_caption(captions[0]) {
        Some(captions[0])
    } else {
        caption_choice(captions.drop_first())
    }
}

/// The URL of the first VTT caption track in the target language; `None`
/// when no track qualifies, or the qualifying track carries no URL.
pub open spec fn caption_url_spec(cfg: RecordingConfig) -> Option<Seq<char>> {
    match caption_choice(cfg.captions@) {
        None => None,
        Some(t) => opt_str_view(t.url),
    }
}

proof fn lemma_caption_choice_skip(captions: Seq<CaptionTrack>, i: int)
    requires
        0 <= i <= captions.len(),
        forall|m: int| 0 <= m < i ==> !is_selected_caption(#[trigger] captions[m]),
    ensures
        caption_choice(captions) == caption_choice(captions.skip(i)),
    decreases i,
{
    if i == 0 {
        assert(captions.skip(0) =~= captions);
    } else {
        assert(!is_selected_caption(captions[0]));
        lemma_caption_choice_skip(captions.drop_first(), i - 1);
        assert(captions.drop_first().skip(i - 1) =~= captions.skip(i));
        assert(forall|m: int|
            0 <= m < i - 1 ==> (#[trigger] captions.drop_first()[m]) == captions[m + 1]);
    }
}

/// Selects the caption track to fetch, per the caption policy.
pub fn caption_url(cfg: &RecordingConfig) -> (r: Option<String>)
    ensures
        opt_str_view(r) == caption_url_spec(*cfg),
{
    let vtt = String::from_str("vtt");
    let de = String::from_str("de");
    let n = cfg.captions.len();
    let mut i: usize = 0;
    while i < n
        invariant
            0 <= i <= n,
            n == cfg.captions@.len(),
            vtt@ == "vtt"@,
            de@ == "de"@,
            forall|m: int| 0 <= m < i ==> !is_selected_caption(#[trigger] cfg.captions@[m]),
        decreases n - i,
    {
        let t = &cfg.captions[i];
        let format_ok = match &t.format {
            Some(f) => *f == vtt,
            None => false,
        };
        let lang_ok = match &t.lang {
            Some(l) => *l == de,
            None => false,
        };
        if format_ok && lang_ok {
            proof {
                assert(is_selected_caption(cfg.captions@[i as int]));
                lemma_caption_choice_skip(cfg.captions@, i as int);
                assert(cfg.captions@.skip(i as int)[0] == cfg.captions@[i as int]);
            }
            return match &t.url {
                Some(u) => Some(u.clone()),
                None => None,
            };
        }
        proof {
            assert(!is_selected_caption(cfg.captions@[i as int]));
        }
        i += 1;
    }
    proof {
        lemma_caption_choice_skip(cfg.captions@, n as int);
        assert(cfg.captions@.skip(n as int).len() == 0);
    }
    None
}

/// A stream the media policy accepts: the primary audio-bearing role.
pub open spec fn is_main_audio(s: MediaStream) -> bool {
    opt_str_view(s.role) == Some("mainAudio"@)
}

/// The first stream the media policy accepts.
pub open spec fn stream_choice(streams: Seq<MediaStream>) -> Option<MediaStream>
    decreases streams.len(),
{
    if streams.len() == 0 {
        None
    } else if is_main_audio(streams[0]) {
        Some(streams[0])
    } else {
        stream_choice(streams.drop_first())
    }
}

/// A container variant usable for download: source URL and both dimensions
/// present.
pub open spec fn is_complete_source(s: StreamSource) -> bool {
    s.src is Some && s.width is Some && s.height is Some
}

/// The pixel area of a variant.
pub open spec fn source_area(s: StreamSource) -> int {
    s.width->0 * s.height->0
}

/// The complete variant with the smallest pixel area, the earliest of
/// equally small ones; the lowest-resolution rendition suffices for audio
/// extraction and minimizes download cost.
pub open spec fn best_source(sources: Seq<StreamSource>) -> Option<StreamSource>
    decreases sources.len(),
{
    if sources.len() == 0 {
        None
    } else {
        let b = best_source(sources.drop_last());
        let c = sources.last();
        if !is_complete_source(c) {
            b
        } else {
            match b {
                None => Some(c),
                Some(p) => if source_area(c) < source_area(p) {
                    Some(c)
                } else {
                    Some(p)
                },
            }
        }
    }
}

/// The URL of the lowest-resolution variant of the first main-audio stream;
/// `None` when no stream or no complete variant qualifies.
pub open spec fn stream_url_spec(cfg: RecordingConfig) -> Option<Seq<char>> {
    match stream_choice(cfg.streams@) {
        None => None,
        Some(s) => match best_source(s.mp4@) {
            None => None,
            Some(b) => opt_str_view(b.src),
        },
    }
}

proof fn lemma_stream_choice_skip(streams: Seq<MediaStream>, i: int)
    requires
        0 <= i <= streams.len(),
        forall|m: int| 0 <= m < i ==> !is_main_audio(#[trigger] streams[m]),
    ensures
        stream_choice(streams) == stream_choice(streams.skip(i)),
    decreases i,
{
    if i == 0 {
        assert(streams.skip(0) =~= streams);
    } else {
        assert(!is_main_audio(streams[0]));
        lemma_stream_choice_skip(streams.drop_first(), i - 1);
        assert(streams.drop_first().skip(i - 1) =~= streams.skip(i));
        assert(forall|m: int|
            0 <= m < i - 1 ==> (#[trigger] streams.drop_first()[m]) == streams[m + 1]);
    }
}

fn best_source_of(sources: &Vec<StreamSource>) -> (r: Option<usize>)
    ensures
        match r {
            Some(bi) => {
                &&& 0 <= bi < sources@.len()
                &&& best_source(sources@) == Some(sources@[bi as int])
            },
            None => best_source(sources@) is None,
        },
{
    let mut best: Option<usize> = None;
    let mut best_area: u128 = 0;
    let mut i: usize = 0;
    while i < sources.len()
        invariant
            0 <= i <= sources@.len(),
            match best {
                Some(bi) => {
                    &&& 0 <= bi < i
                    &&& best_source(sources@.subrange(0, i as int)) == Some(
                        sources@[bi as int],
                    )
                    &&& is_complete_source(sources@[bi as int])
                    &&& best_area as int == source_area(sources@[bi as int])
                },
                None => best_source(sources@.subrange(0, i as int)) is None,
            },
        decreases sources@.len() - i,
    {
        let ghost prefix = sources@.subrange(0, i as int);
        let ghost next = sources@.subrange(0, i as int + 1);
        proof {
            assert(next.drop_last() =~= prefix);
            assert(next.last() == sources@[i as int]);
        }
        let s = &sources[i];
        let complete = s.src.is_some() && s.width.is_some() && s.height.is_some();
        if complete {
            let w = match s.width {
                Some(w) => w,
                None => 0,
            };
            let h = match s.height {
                Some(h) => h,
                None => 0,
            };
            proof {
                assert((w as u128) * (h as u128) <= u128::MAX) by (nonlinear_arith)
                    requires
                        w <= u64::MAX,
                        h <= u64::MAX,
                ;
            }
            let area = (w as u128) * (h as u128);
            match best {
                None => {
                    best = Some(i);
                    best_area = area;
                },
                Some(_) => {
                    if area < best_area {
                        best = Some(i);
                        best_area = area;
                    }
                },
            }
        }
        i += 1;
    }
    proof {
        assert(sources@.subrange(0, sources@.len() as int) =~= sources@);
    }
    best
}

/// Selects the media stream variant to download, per the media policy.
pub fn stream_url(cfg: &RecordingConfig) -> (r: Option<String>)
    ensures
        opt_str_view(r) == stream_url_spec(*cfg),
{
    let main_audio = String::from_str("mainAudio");
    let n = cfg.streams.len();
    let mut i: usize = 0;
    while i < n
        invariant
            0 <= i <= n,
            n == cfg.streams@.len(),
            main_audio@ == "mainAudio"@,
            forall|m: int| 0 <= m < i ==> !is_main_audio(#[trigger] cfg.streams@[m]),
        decreases n - i,
    {
        let s = &cfg.streams[i];
        let role_ok = match &s.role {
            Some(r) => *r == main_audio,
            None => false,
        };
        if role_ok {
            proof {
                assert(is_main_audio(cfg.streams@[i as int]));
                lemma_stream_choice_skip(cfg.streams@, i as int);
                assert(cfg.streams@.skip(i as int)[0] == cfg.streams@[i as int]);
            }
            return match best_source_of(&s.mp4) {
                Some(bi) => match &s.mp4[bi].src {
                    Some(u) => Some(u.clone()),
                    None => None,
                },
                None => None,
            };
        }
        proof {
            assert(!is_main_audio(cfg.streams@[i as int]));
        }
        i += 1;
    }
    proof {
        lemma_stream_choice_skip(cfg.streams@, n as int);
        assert(cfg.streams@.skip(n as int).len() == 0);
    }
    None
}


/// Why a recording page yielded no configuration.  The stages are distinct:
/// a caller can tell a missing config script from unparseable script content.
#[derive(Debug)]
pub enum ConfigError {
    /// The page holds no config script node at the expected position.
    ScriptMissing,
    /// The script text does not assign the expected global variable.
    SetterMissing,
    /// The assigned value is not valid JSON.
    JsonInvalid,
}

/// The comment wrapper a config script may open with.
pub open spec fn cdata_prefix() -> Seq<char> {
    "//<![CDATA[\n"@
}

/// The comment wrapper a config script may close with.
pub open spec fn cdata_suffix() -> Seq<char> {
    "//]]>"@
}

/// The global-variable assignment that precedes the config JSON.
pub open spec fn setter_prefix() -> Seq<char> {
    "window.episode = "@
}

/// The script text with the optional comment wrapper removed: both halves
/// must be present for either to be stripped.
pub open spec fn strip_cdata(s: Seq<char>) -> Seq<char> {
    if has_prefix(s, cdata_prefix()) && has_suffix(
        s.skip(cdata_prefix().len() as int),
        cdata_suffix(),
    ) {
        s.subrange(cdata_prefix().len() as int, s.len() - cdata_suffix().len())
    } else {
        s
    }
}

/// The JSON text of a config script: the script without its comment wrapper
/// and without the assignment prefix; `None` where the assignment is absent.
pub open spec fn page_config_text(s: Seq<char>) -> Option<Seq<char>> {
    let t = strip_cdata(s);
    if has_prefix(t, setter_prefix()) {
        Some(t.skip(setter_prefix().len() as int))
    } else {
        None
    }
}

/// Turns a recording page's config script text into a configuration:
/// strips the optional comment wrapper, requires the assignment prefix,
/// parses the remainder as JSON and reads the configuration out of it.
pub fn parse_page_config(script: &str) -> (r: Result<RecordingConfig, ConfigError>)
    ensures
        match r {
            Ok(cfg) => {
                &&& page_config_text(script@) matches Some(t)
                &&& json_parse(page_config_text(script@)->0) matches Some(m)
                &&& config_models(cfg, json_parse(page_config_text(script@)->0)->0)
            },
            Err(e) => match e {
                ConfigError::SetterMissing => page_config_text(script@) is None,
                ConfigError::JsonInvalid => {
                    &&& page_config_text(script@) matches Some(t)
                    &&& json_parse(page_config_text(script@)->0) is None
                },
                ConfigError::ScriptMissing => false,
            },
        },
{
    let v = chars_vec(script);
    let pre = chars_vec("//<![CDATA[\n");
    let suf = chars_vec("//]]>");
    let setter = chars_vec("window.episode = ");
    let pre_ok = has_prefix_exec(&v, &pre);
    let wrapped = pre_ok && v.len() - pre.len() >= suf.len() && has_suffix_exec(&v, &suf);
    let lo: usize = if wrapped {
        pre.len()
    } else {
        0
    };
    let hi: usize = if wrapped {
        v.len() - suf.len()
    } else {
        v.len()
    };
    proof {
        if wrapped {
            assert(v@.skip(pre@.len() as int).subrange(
                v@.skip(pre@.len() as int).len() - suf@.len(),
                v@.skip(pre@.len() as int).len() as int,
            ) =~= v@.subrange(v@.len() - suf@.len(), v@.len() as int));
            assert(has_suffix(script@.skip(cdata_prefix().len() as int), cdata_suffix()));
        } else {
            if has_prefix(script@, cdata_prefix()) && has_suffix(
                script@.skip(cdata_prefix().len() as int),
                cdata_suffix(),
            ) {
                assert(v@.subrange(v@.len() - suf@.len(), v@.len() as int) =~= v@.skip(
                    pre@.len() as int,
                ).subrange(
                    v@.skip(pre@.len() as int).len() - suf@.len(),
                    v@.skip(pre@.len() as int).len() as int,
                ));
                assert(has_suffix(script@, cdata_suffix()));
                assert(false);
            }
        }
        assert(strip_cdata(script@) =~= script@.subrange(lo as int, hi as int));
    }
    let stripped = script.substring_char(lo, hi);
    let sv = chars_vec(stripped);
    if !has_prefix_exec(&sv, &setter) {
        return Err(ConfigError::SetterMissing);
    }
    let json_text = stripped.substring_char(setter.len(), sv.len());
    proof {
        assert(json_text@ =~= strip_cdata(script@).skip(setter_prefix().len() as int));
    }
    match parse_json(json_text) {
        None => Err(ConfigError::JsonInvalid),
        Some(node) => Ok(extract_config(&node)),
    }
}

} // verus!
