//! The transcript resolver: a two-state fallback machine per recording.
//!
//! First the captions path: if the configuration offers a qualifying
//! caption track, it is fetched and reduced.  If that fails for any reason
//! — no track, unparseable file, empty cue list — the fallback path selects
//! a media stream for download and local speech recognition.  With neither
//! a track nor a qualifying stream, resolution fails without attempting
//! recognition.  No state is retried.

use vstd::prelude::*;
use crate::recording::{RecordingConfig, caption_url, caption_url_spec, stream_url, stream_url_spec};
use vstd::string::StringExecFns;

verus! {

/// What the resolver asks its caller to do next.  The caller performs the
/// download or the recognition and feeds the result back.
pub enum ResolveAction {
    /// Fetch the caption file at this URL and hand its text back.
    FetchCaptions(String),
    /// Download the stream at this URL, decode its audio and hand the
    /// recognized text back.
    Recognize(String),
    /// Neither captions nor a usable stream exist: resolution fails.
    GiveUp,
}

/// How one recording's transcript was obtained.
pub enum TranscriptOutcome {
    /// Reduced from an embedded caption track.
    Captions(String),
    /// Produced by local speech recognition on the downloaded stream.
    Recognized(String),
}

/// The resolver's first move: captions where a track qualifies; otherwise
/// straight to recognition where a stream qualifies; otherwise failure —
/// and never recognition while a caption track is available.
pub fn first_action(cfg: &RecordingConfig) -> (a: ResolveAction)
    ensures
        match a {
            ResolveAction::FetchCaptions(u) => caption_url_spec(*cfg) == Some(u@),
            ResolveAction::Recognize(u) => {
                &&& caption_url_spec(*cfg) is None
                &&& stream_url_spec(*cfg) == Some(u@)
            },
            ResolveAction::GiveUp => {
                &&& caption_url_spec(*cfg) is None
                &&& stream_url_spec(*cfg) is None
            },
        },
{
    match caption_url(cfg) {
        Some(u) => ResolveAction::FetchCaptions(u),
        None => match stream_url(cfg) {
            Some(u) => ResolveAction::Recognize(u),
            None => ResolveAction::GiveUp,
        },
    }
}

/// The resolver's second and last move, after the captions path failed for
/// any reason: recognition where a stream qualifies, failure otherwise.
/// The captions path is never retried.
pub fn fallback_action(cfg: &RecordingConfig) -> (a: ResolveAction)
    ensures
        match a {
            ResolveAction::Recognize(u) => stream_url_spec(*cfg) == Some(u@),
            ResolveAction::GiveUp => stream_url_spec(*cfg) is None,
            ResolveAction::FetchCaptions(_) => false,
        },
{
    match stream_url(cfg) {
        Some(u) => ResolveAction::Recognize(u),
        None => ResolveAction::GiveUp,
    }
}

/// Accepts a recognizer's output as the transcript, verbatim: the resolver
/// neither reduces nor otherwise edits recognized text.
pub fn accept_recognition(text: String) -> (t: TranscriptOutcome)
    ensures
        t matches TranscriptOutcome::Recognized(s) && s == text,
{
    TranscriptOutcome::Recognized(text)
}

/// Accepts a reduced caption transcript.
pub fn accept_captions(text: String) -> (t: TranscriptOutcome)
    ensures
        t matches TranscriptOutcome::Captions(s) && s == text,
{
    TranscriptOutcome::Captions(text)
}

impl TranscriptOutcome {
    /// The transcript itself: whichever path succeeded, the result is one
    /// flat string.
    pub fn into_text(self) -> (t: String)
        ensures
            match self {
                TranscriptOutcome::Captions(s) => t == s,
                TranscriptOutcome::Recognized(s) => t == s,
            },
    {
        match self {
            TranscriptOutcome::Captions(s) => s,
            TranscriptOutcome::Recognized(s) => s,
        }
    }
}

/// The segment texts concatenated in order, with nothing inserted between
/// them.
pub open spec fn concat_segments(parts: Seq<Seq<char>>) -> Seq<char>
    decreases parts.len(),
{
    if parts.len() == 0 {
        Seq::empty()
    } else {
        concat_segments(parts.drop_last()) + parts.last()
    }
}

/// Joins a recognizer's segment texts, in segment order, into the
/// transcript: plain concatenation, each segment kept verbatim.
pub fn join_segment_texts(segments: &Vec<String>) -> (r: String)
    ensures
        r@ == concat_segments(segments.deep_view()),
{
    let mut r = String::new();
    let mut k: usize = 0;
    while k < segments.len()
        invariant
            0 <= k <= segments@.len(),
            r@ == concat_segments(segments.deep_view().subrange(0, k as int)),
        decreases segments@.len() - k,
    {
        let ghost prefix = segments.deep_view().subrange(0, k as int);
        let ghost next = segments.deep_view().subrange(0, k as int + 1);
        r.append(segments[k].as_str());
        proof {
            assert(next.drop_last() =~= prefix);
            assert(next.last() == segments.deep_view()[k as int]);
            assert(segments.deep_view()[k as int] =~= segments@[k as int]@);
            assert(r@ =~= concat_segments(next));
        }
        k += 1;
    }
    proof {
        assert(segments.deep_view().subrange(0, segments@.len() as int) =~= segments.deep_view());
    }
    r
}

} // verus!
