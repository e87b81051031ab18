//! Subtitle-track selection and the extraction batch.
//!
//! A container file carries several tracks; only enabled English subtitle
//! tracks are candidates for comparison. When exactly one candidate stands
//! out (a single track, or a single one flagged as default), it is chosen
//! automatically; otherwise the caller must prompt the user. The extraction
//! batch walks the files in order, skips a file without a suitable track,
//! and stops fatally at the first extraction failure, keeping the output of
//! every file processed before it.

use vstd::prelude::*;

use crate::text::str_eq;

verus! {

/// How a track tags its language.
pub enum TrackLanguage {
    Iso639(String),
    Ietf(String),
}

/// The track's type: only subtitle tracks matter here.
pub enum TrackKind {
    Subtitle,
    Other,
}

/// A track of a media container, reduced to what the selection logic reads.
pub struct SubtitleTrack {
    pub number: u64,
    pub uid: u64,
    pub codec_id: String,
    pub language: Option<TrackLanguage>,
    pub default: bool,
    pub enabled: bool,
    pub kind: TrackKind,
}

/// Whether the language tag names English.
pub open spec fn is_english_spec(lang: Option<TrackLanguage>) -> bool {
    match lang {
        Some(TrackLanguage::Iso639(l)) => l@ == "eng"@,
        Some(TrackLanguage::Ietf(l)) => l@ == "en"@ || l@ == "en-US"@ || l@ == "en-GB"@,
        None => false,
    }
}

/// Whether the language tag names English.
pub fn is_english(lang: &Option<TrackLanguage>) -> (r: bool)
    ensures
        r == is_english_spec(*lang),
{
    match lang {
        Some(TrackLanguage::Iso639(l)) => str_eq(l.as_str(), "eng"),
        Some(TrackLanguage::Ietf(l)) => str_eq(l.as_str(), "en") || str_eq(l.as_str(), "en-US")
            || str_eq(l.as_str(), "en-GB"),
        None => false,
    }
}

/// A track that may be used for comparison: an enabled English subtitle
/// track.
pub open spec fn keep_track(t: SubtitleTrack) -> bool {
    t.kind is Subtitle && t.enabled && is_english_spec(t.language)
}

/// The candidate tracks, in their original order.
pub open spec fn filter_tracks_spec(s: Seq<SubtitleTrack>) -> Seq<SubtitleTrack>
    decreases s.len(),
{
    if s.len() == 0 {
        Seq::<SubtitleTrack>::empty()
    } else {
        (if keep_track(s[0]) {
            seq![s[0]]
        } else {
            Seq::<SubtitleTrack>::empty()
        }) + filter_tracks_spec(s.skip(1))
    }
}

/// Keeps the enabled English subtitle tracks of a container, in order.
#[verifier::loop_isolation(false)]
pub fn filter_subtitle_tracks(tracks: Vec<SubtitleTrack>) -> (r: Vec<SubtitleTrack>)
    ensures
        r@ == filter_tracks_spec(tracks@),
{
    let ghost orig = tracks@;
    let mut rest = tracks;
    let mut out: Vec<SubtitleTrack> = Vec::new();
    proof {
        assert(out@ + filter_tracks_spec(rest@) =~= filter_tracks_spec(orig));
    }
    while rest.len() > 0
        invariant
            filter_tracks_spec(orig) =~= out@ + filter_tracks_spec(rest@),
        decreases rest@.len(),
    {
        let ghost rest0 = rest@;
        let ghost out0 = out@;
        let is_subtitle = match rest[0].kind {
            TrackKind::Subtitle => true,
            TrackKind::Other => false,
        };
        let keep = is_subtitle && rest[0].enabled && is_english(&rest[0].language);
        let t = rest.remove(0);
        proof {
            assert(rest@ =~= rest0.skip(1));
            assert(keep == keep_track(t));
        }
        if keep {
            out.push(t);
            proof {
                assert(out@ =~= out0 + seq![t]);
                assert(out0 + (seq![t] + filter_tracks_spec(rest@)) =~= out@ + filter_tracks_spec(
                    rest@,
                ));
            }
        } else {
            proof {
                assert(Seq::<SubtitleTrack>::empty() + filter_tracks_spec(rest@)
                    =~= filter_tracks_spec(rest@));
            }
        }
    }
    proof {
        assert(filter_tracks_spec(rest@) =~= Seq::<SubtitleTrack>::empty());
        assert(out@ + Seq::<SubtitleTrack>::empty() =~= out@);
    }
    out
}

/// Tries to narrow the candidate tracks down to one: the only track, or the
/// only one flagged as default. Returns its index, or `None` when no single
/// track stands out.
#[verifier::loop_isolation(false)]
pub fn get_default_track(tracks: &Vec<SubtitleTrack>) -> (r: Option<usize>)
    ensures
        tracks@.len() == 0 ==> r is None,
        tracks@.len() == 1 ==> r == Some(0usize),
        tracks@.len() >= 2 ==> match r {
            Some(i) => 0 <= i < tracks@.len() && tracks@[i as int].default && (forall|j: int|
                0 <= j < tracks@.len() && j != i ==> !(#[trigger] tracks@[j]).default),
            None => !(exists|i: int|
                0 <= i < tracks@.len() && (#[trigger] tracks@[i]).default && (forall|j: int|
                    0 <= j < tracks@.len() && j != i ==> !(#[trigger] tracks@[j]).default)),
        },
{
    if tracks.len() == 0 {
        return None;
    }
    if tracks.len() == 1 {
        return Some(0);
    }
    // Find the first default track.
    let mut k: usize = 0;
    while k < tracks.len() && !tracks[k].default
        invariant
            k <= tracks@.len(),
            forall|j: int| 0 <= j < k ==> !(#[trigger] tracks@[j]).default,
        decreases tracks@.len() - k,
    {
        k = k + 1;
    }
    if k == tracks.len() {
        // No default track at all.
        return None;
    }
    let first = k;
    // Look for a second default track.
    let mut m: usize = first + 1;
    while m < tracks.len() && !tracks[m].default
        invariant
            first < m <= tracks@.len(),
            forall|j: int| first < j < m ==> !(#[trigger] tracks@[j]).default,
        decreases tracks@.len() - m,
    {
        m = m + 1;
    }
    if m == tracks.len() {
        Some(first)
    } else {
        // At least two default tracks: no unique choice.
        proof {
            assert forall|i: int|
                0 <= i < tracks@.len() && (#[trigger] tracks@[i]).default implies !(forall|j: int|
                0 <= j < tracks@.len() && j != i ==> !(#[trigger] tracks@[j]).default) by {
                if i == first {
                    assert(tracks@[m as int].default);
                } else {
                    assert(tracks@[first as int].default);
                }
            }
        }
        None
    }
}

/// The outcome of choosing a comparison track.
pub enum TrackChoice {
    /// No enabled English subtitle track exists: an error for the caller.
    NoTracks,
    /// This track (by index) is the unambiguous choice.
    Auto(usize),
    /// Several tracks qualify and none stands out: the user must pick.
    NeedsPrompt,
}

/// Chooses the track to compare against downloaded subtitles: fails when no
/// candidate exists, picks the single or single-default candidate
/// automatically, and defers to a prompt otherwise.
pub fn get_comparison_track(tracks: &Vec<SubtitleTrack>) -> (r: TrackChoice)
    ensures
        r is NoTracks <==> tracks@.len() == 0,
        r matches TrackChoice::Auto(i) ==> 0 <= i < tracks@.len(),
        tracks@.len() == 1 ==> r == TrackChoice::Auto(0usize),
        tracks@.len() >= 2 ==> match r {
            TrackChoice::Auto(i) => tracks@[i as int].default && (forall|j: int|
                0 <= j < tracks@.len() && j != i ==> !(#[trigger] tracks@[j]).default),
            TrackChoice::NeedsPrompt => !(exists|i: int|
                0 <= i < tracks@.len() && (#[trigger] tracks@[i]).default && (forall|j: int|
                    0 <= j < tracks@.len() && j != i ==> !(#[trigger] tracks@[j]).default)),
            TrackChoice::NoTracks => false,
        },
{
    if tracks.len() == 0 {
        return TrackChoice::NoTracks;
    }
    match get_default_track(tracks) {
        Some(i) => TrackChoice::Auto(i),
        None => TrackChoice::NeedsPrompt,
    }
}

/// The sidecar file extension for an extracted track, by codec: text
/// subtitles extract to `srt`, VobSub bitmaps to `sub`, PGS bitmaps to
/// `sup`, and anything else to `dat`.
pub fn track_output_extension(codec_id: &str) -> (r: String)
    ensures
        codec_id@ == "S_TEXT/UTF8"@ ==> r@ == "srt"@,
        codec_id@ == "S_VOBSUB"@ ==> r@ == "sub"@,
        codec_id@ == "S_HDMV/PGS"@ ==> r@ == "sup"@,
        codec_id@ != "S_TEXT/UTF8"@ && codec_id@ != "S_VOBSUB"@ && codec_id@ != "S_HDMV/PGS"@
            ==> r@ == "dat"@,
{
    proof {
        reveal_strlit("S_TEXT/UTF8");
        reveal_strlit("S_VOBSUB");
        reveal_strlit("S_HDMV/PGS");
        assert("S_TEXT/UTF8"@.len() == 11);
        assert("S_VOBSUB"@.len() == 8);
        assert("S_HDMV/PGS"@.len() == 10);
    }
    if str_eq(codec_id, "S_TEXT/UTF8") {
        String::from_str("srt")
    } else if str_eq(codec_id, "S_VOBSUB") {
        String::from_str("sub")
    } else if str_eq(codec_id, "S_HDMV/PGS") {
        String::from_str("sup")
    } else {
        String::from_str("dat")
    }
}

/// What the OCR stage must do with an extracted track.
pub enum OcrPlan {
    /// A text track: nothing to convert.
    NoOcr,
    /// A VobSub bitmap track: run the OCR tool directly.
    OcrDirectly,
    /// A PGS bitmap track: convert it to VobSub first, then run OCR.
    ConvertThenOcr,
}

/// Decides the OCR step for a track by its codec.
pub fn ocr_plan(codec_id: &str) -> (r: OcrPlan)
    ensures
        codec_id@ == "S_VOBSUB"@ ==> r is OcrDirectly,
        codec_id@ == "S_HDMV/PGS"@ ==> r is ConvertThenOcr,
        codec_id@ != "S_VOBSUB"@ && codec_id@ != "S_HDMV/PGS"@ ==> r is NoOcr,
{
    proof {
        reveal_strlit("S_VOBSUB");
        reveal_strlit("S_HDMV/PGS");
        assert("S_VOBSUB"@.len() == 8);
        assert("S_HDMV/PGS"@.len() == 10);
    }
    if str_eq(codec_id, "S_VOBSUB") {
        OcrPlan::OcrDirectly
    } else if str_eq(codec_id, "S_HDMV/PGS") {
        OcrPlan::ConvertThenOcr
    } else {
        OcrPlan::NoOcr
    }
}

/// What happened to one file of an extraction batch.
pub enum ExtractEvent {
    /// No suitable subtitle track: the file is skipped with a notice.
    NoSuitableTrack,
    /// The extraction process exited, successfully or not.
    ExtractExit { success: bool },
}

/// The state of a batch extraction run over `total` files, processed in
/// order. A failed extraction is fatal: the batch stops at that file, and
/// everything extracted before it stays extracted.
pub struct ExtractionBatch {
    pub total: usize,
    pub next_file: usize,
    pub extracted: Vec<usize>,
    pub skipped: Vec<usize>,
    pub failed: Option<usize>,
}

impl ExtractionBatch {
    /// Starts a batch over `total` files.
    pub fn new(total: usize) -> (b: ExtractionBatch)
        ensures
            b.total == total,
            b.next_file == 0,
            b.extracted@ == Seq::<usize>::empty(),
            b.skipped@ == Seq::<usize>::empty(),
            b.failed is None,
    {
        ExtractionBatch {
            total,
            next_file: 0,
            extracted: Vec::new(),
            skipped: Vec::new(),
            failed: None,
        }
    }

    /// Whether the batch goes on: it stops at the first extraction failure
    /// and when every file has been processed.
    pub fn running(&self) -> (r: bool)
        ensures
            r == (self.failed is None && self.next_file < self.total),
    {
        match self.failed {
            Some(_) => false,
            None => self.next_file < self.total,
        }
    }

    /// Advances the batch by the outcome of the current file: a file without
    /// a suitable track is skipped, a successful extraction is recorded, and
    /// a failed extraction stops the batch at this file, leaving every
    /// earlier result in place.
    pub fn step(&mut self, event: ExtractEvent)
        requires
            old(self).failed is None,
            old(self).next_file < old(self).total,
        ensures
            final(self).total == old(self).total,
            match event {
                ExtractEvent::NoSuitableTrack => final(self).next_file == old(self).next_file + 1
                    && final(self).skipped@ == old(self).skipped@.push(old(self).next_file)
                    && final(self).extracted@ == old(self).extracted@ && final(self).failed
                    is None,
                ExtractEvent::ExtractExit { success } => if success {
                    final(self).next_file == old(self).next_file + 1 && final(self).extracted@
                        == old(self).extracted@.push(old(self).next_file) && final(self).skipped@
                        == old(self).skipped@ && final(self).failed is None
                } else {
                    final(self).next_file == old(self).next_file
                        && final(self).extracted@ == old(self).extracted@
                        && final(self).skipped@ == old(self).skipped@
                        && final(self).failed == Some(old(self).next_file)
                },
            },
    {
        match event {
            ExtractEvent::NoSuitableTrack => {
                self.skipped.push(self.next_file);
                self.next_file = self.next_file + 1;
            },
            ExtractEvent::ExtractExit { success } => {
                if success {
                    self.extracted.push(self.next_file);
                    self.next_file = self.next_file + 1;
                } else {
                    self.failed = Some(self.next_file);
                }
            },
        }
    }
}

} // verus!
