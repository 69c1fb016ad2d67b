//! The captions path of transcript resolution: parsing a downloaded
//! subtitle file and reducing its cues to one transcript string.

use vstd::prelude::*;
use crate::cues::{reduce_cues, reduce_cue_texts};

verus! {

/// What parsing the text as WebVTT yields: `None` where the text is no
/// valid WebVTT document, otherwise the payload lines of each cue block, in
/// order, non-cue blocks (comments, styles, regions) left out.
pub uninterp spec fn vtt_cue_payloads(s: Seq<char>) -> Option<Seq<Seq<Seq<char>>>>;

/// Relies on `subtp::vtt::WebVtt::parse`, a deterministic function of its
/// input text, and on keeping the cue blocks apart from the other block
/// variants, moving each cue's payload lines.
#[verifier::external_body]
fn parse_vtt(s: &str) -> (r: Option<Vec<Vec<String>>>)
    ensures
        r is Some <==> vtt_cue_payloads(s@) is Some,
        r matches Some(cues) ==> cues.deep_view() == vtt_cue_payloads(s@)->0,
{
    let vtt = subtp::vtt::WebVtt::parse(s).ok()?;
    Some(
        vtt.blocks
            .into_iter()
            .filter_map(
                |block| match block {
                    subtp::vtt::VttBlock::Que(cue) => Some(cue.payload),
                    _ => None,
                },
            )
            .collect(),
    )
}

/// Why a caption file yielded no transcript.  Both cases mean the captions
/// are unusable and resolution falls back to recognition.
#[derive(Debug)]
pub enum CaptionsError {
    /// The file is not valid WebVTT.
    Unparseable,
    /// The file parsed but holds not a single cue.
    NoCues,
}

/// The transcript of a caption file: its cues reduced — consecutive
/// duplicates collapsed — and joined.  A file without a single cue is
/// rejected.
pub fn captions_transcript(vtt_text: &str) -> (r: Result<String, CaptionsError>)
    ensures
        match r {
            Ok(t) => {
                &&& vtt_cue_payloads(vtt_text@) matches Some(cues)
                &&& vtt_cue_payloads(vtt_text@)->0.len() > 0
                &&& t@ == reduce_cues(vtt_cue_payloads(vtt_text@)->0)
            },
            Err(e) => match e {
                CaptionsError::Unparseable => vtt_cue_payloads(vtt_text@) is None,
                CaptionsError::NoCues => {
                    &&& vtt_cue_payloads(vtt_text@) matches Some(cues)
                    &&& vtt_cue_payloads(vtt_text@)->0.len() == 0
                },
            },
        },
{
    match parse_vtt(vtt_text) {
        None => Err(CaptionsError::Unparseable),
        Some(cues) => {
            if cues.len() == 0 {
                proof {
                    assert(cues.deep_view().len() == 0);
                }
                Err(CaptionsError::NoCues)
            } else {
                proof {
                    assert(cues.deep_view().len() > 0);
                }
                Ok(reduce_cue_texts(&cues))
            }
        },
    }
}

} // verus!
