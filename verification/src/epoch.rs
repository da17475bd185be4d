//! The Time zone's timestamp formatting. The calendar rendering itself is
//! chrono's work, behind one trusted wrapper with a named result; everything
//! around it — the name shape, the decimal parse, the answer assembly — is
//! verified.

use vstd::prelude::*;
use crate::text::label_lower;
use crate::types::{DnsResponse, Error, RecordData, RecordDataView, copy_labels, is_single_answer,
    single_answer};

verus! {

/// The fixed leading label of a Time-zone query: "epoch".
pub open spec fn epoch_tag() -> Seq<u8> {
    seq!['e' as u8, 'p' as u8, 'o' as u8, 'c' as u8, 'h' as u8]
}

/// The leading label, ready to compare against.
pub fn make_epoch_label() -> (r: Vec<u8>)
    ensures
        r@ == epoch_tag(),
{
    let r = vec!['e' as u8, 'p' as u8, 'o' as u8, 'c' as u8, 'h' as u8];
    proof {
        assert(r@ =~= epoch_tag());
    }
    r
}

/// The tag is already lowercase.
pub proof fn lemma_epoch_tag_lower()
    ensures
        label_lower(epoch_tag()) == epoch_tag(),
{
    assert(label_lower(epoch_tag()) =~= epoch_tag());
}

/// The name for what chrono computes: the "YYYY-MM-DD HH:MM:SS" rendering of
/// a count of Unix seconds, or nothing when the count is out of chrono's
/// range.
pub uninterp spec fn epoch_text(secs: i64) -> Option<Seq<u8>>;

/// Relies on chrono's DateTime::from_timestamp and its "%Y-%m-%d %H:%M:%S"
/// formatting: the rendering depends on the timestamp alone, and None comes
/// back exactly on the timestamps chrono documents as out of range.
#[verifier::external_body]
pub(crate) fn chrono_format_epoch(secs: i64) -> (r: Option<Vec<u8>>)
    ensures
        r is Some <==> epoch_text(secs) is Some,
        r matches Some(v) ==> epoch_text(secs) == Some(v@),
{
    chrono::DateTime::<chrono::Utc>::from_timestamp(secs, 0).map(
        |dt| dt.naive_utc().format("%Y-%m-%d %H:%M:%S").to_string().into_bytes(),
    )
}

/// Builds the Time-zone answer from the formatted timestamp, when chrono had
/// one: a single text record echoing the query name; otherwise the
/// invalid-query error.
pub fn epoch_answer(name: &Vec<Vec<u8>>, formatted: Option<Vec<u8>>) -> (r: Result<
    DnsResponse,
    Error,
>)
    ensures
        formatted matches Some(t) ==> r matches Ok(resp) && is_single_answer(
            resp,
            name.deep_view(),
            RecordDataView::Txt(t@),
        ),
        formatted is None ==> r == Err::<DnsResponse, _>(Error::InvalidEpochQuery),
{
    match formatted {
        Some(t) => Ok(single_answer(copy_labels(name), RecordData::Txt(t))),
        None => Err(Error::InvalidEpochQuery),
    }
}

} // verus!
