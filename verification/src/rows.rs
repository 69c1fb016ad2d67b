//! Result rows: one per resolved recording, with the three phrase counts.

use vstd::prelude::*;
use crate::patterns::{
    count_phrases, pattern_count, phrase_defacto, phrase_sinn, phrase_trivial,
};

verus! {

/// One recording's result: title, source link, transcript, and the number
/// of occurrences of each survey phrase in the transcript.
pub struct DataRow {
    pub title: String,
    pub link: String,
    pub transcript: String,
    pub defacto: usize,
    pub trivial: usize,
    pub sinn: usize,
}

/// The compact form of a row: the transcript dropped, all else kept.
pub struct ShortenedDataRow {
    pub title: String,
    pub link: String,
    pub defacto: usize,
    pub trivial: usize,
    pub sinn: usize,
}

impl Clone for DataRow {
    fn clone(&self) -> (r: Self)
        ensures
            r == *self,
    {
        DataRow {
            title: self.title.clone(),
            link: self.link.clone(),
            transcript: self.transcript.clone(),
            defacto: self.defacto,
            trivial: self.trivial,
            sinn: self.sinn,
        }
    }
}

impl From<DataRow> for ShortenedDataRow {
    fn from(row: DataRow) -> (r: ShortenedDataRow) {
        ShortenedDataRow {
            title: row.title,
            link: row.link,
            defacto: row.defacto,
            trivial: row.trivial,
            sinn: row.sinn,
        }
    }
}

impl vstd::std_specs::convert::FromSpecImpl<DataRow> for ShortenedDataRow {
    open spec fn obeys_from_spec() -> bool {
        true
    }

    open spec fn from_spec(row: DataRow) -> ShortenedDataRow {
        ShortenedDataRow {
            title: row.title,
            link: row.link,
            defacto: row.defacto,
            trivial: row.trivial,
            sinn: row.sinn,
        }
    }
}

/// Builds the row for one recording: the transcript is scanned once for
/// each survey phrase and the counts are carried beside it.
pub fn make_row(title: String, link: String, transcript: String) -> (row: DataRow)
    ensures
        row.title == title,
        row.link == link,
        row.transcript == transcript,
        row.defacto as nat == pattern_count(transcript@, phrase_defacto()),
        row.trivial as nat == pattern_count(transcript@, phrase_trivial()),
        row.sinn as nat == pattern_count(transcript@, phrase_sinn()),
{
    let counts = count_phrases(transcript.as_str());
    DataRow {
        title,
        link,
        transcript,
        defacto: counts.0,
        trivial: counts.1,
        sinn: counts.2,
    }
}

} // verus!
