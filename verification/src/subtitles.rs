//! Subtitle-search provider logic: summarizing search results for the user,
//! the lazily-filled session-token cache, and the query encoding for the
//! metadata search.

use vstd::prelude::*;

verus! {

/// One downloadable file inside a subtitle search result.
pub struct SubtitleFileRef {
    pub file_id: u32,
    pub file_name: String,
}

/// One subtitle search result: language and uploader metadata, and the files
/// it offers.
pub struct SubtitleEntry {
    pub language: String,
    pub uploader_name: String,
    pub uploader_rank: String,
    pub files: Vec<SubtitleFileRef>,
}

/// One line offered to the user: a description and the file id to download.
pub struct SubtitleSummary {
    pub name: String,
    pub file_id: u32,
}

/// Why the subtitle search yielded nothing usable.
#[derive(Clone, Copy, PartialEq, Eq, Structural, Debug)]
pub enum SubtitleError {
    /// The provider returned no downloadable files for this episode.
    NoSubtitlesFound,
}

impl SubtitleError {
    /// A human-readable description of the error.
    pub fn message(&self) -> (r: &'static str)
        ensures
            r@ == "No subtitles found for title"@,
    {
        "No subtitles found for title"
    }
}

/// The description line for file `k` of `entry`:
/// `lang: {language}, name: {file_name}, uploader: {name} ({rank})`.
pub open spec fn summary_name_spec(entry: SubtitleEntry, k: int) -> Seq<char> {
    "lang: "@ + entry.language@ + ", name: "@ + entry.files@[k].file_name@ + ", uploader: "@
        + entry.uploader_name@ + " ("@ + entry.uploader_rank@ + ")"@
}

/// How many files the first `i` entries offer together.
pub open spec fn files_before(entries: Seq<SubtitleEntry>, i: int) -> nat
    decreases i,
{
    if i <= 0 {
        0
    } else {
        files_before(entries, i - 1) + entries[i - 1].files@.len()
    }
}

/// Entry boundaries are monotone: later entries start at or after earlier
/// ones.
proof fn lemma_files_before_mono(entries: Seq<SubtitleEntry>, a: int, b: int)
    requires
        0 <= a <= b,
    ensures
        files_before(entries, a) <= files_before(entries, b),
    decreases b - a,
{
    if a < b {
        lemma_files_before_mono(entries, a, b - 1);
    }
}

/// Formats the description line for file `k` of `entry`.
fn summary_name(entry: &SubtitleEntry, k: usize) -> (r: String)
    requires
        k < entry.files@.len(),
    ensures
        r@ == summary_name_spec(*entry, k as int),
{
    let mut r = String::new();
    r.append("lang: ");
    r.append(entry.language.as_str());
    r.append(", name: ");
    r.append(entry.files[k].file_name.as_str());
    r.append(", uploader: ");
    r.append(entry.uploader_name.as_str());
    r.append(" (");
    r.append(entry.uploader_rank.as_str());
    r.append(")");
    proof {
        assert(r@ =~= summary_name_spec(*entry, k as int));
    }
    r
}

/// Flattens the search results into one selectable line per downloadable
/// file, in the order the provider listed them. Returns an error exactly
/// when no entry offers any file.
#[verifier::loop_isolation(false)]
pub fn summarize_search_results(entries: &Vec<SubtitleEntry>) -> (r: Result<
    Vec<SubtitleSummary>,
    SubtitleError,
>)
    ensures
        match r {
            Ok(v) => {
                &&& v@.len() == files_before(entries@, entries@.len() as int)
                &&& v@.len() > 0
                &&& forall|i: int, k: int|
                    0 <= i < entries@.len() && 0 <= k < entries@[i].files@.len()
                        ==> v@[files_before(entries@, i) + k].file_id == (
                    #[trigger] entries@[i].files@[k]).file_id && v@[files_before(entries@, i)
                        + k].name@ == summary_name_spec(entries@[i], k)
            },
            Err(e) => e == SubtitleError::NoSubtitlesFound && files_before(
                entries@,
                entries@.len() as int,
            ) == 0,
        },
{
    let mut out: Vec<SubtitleSummary> = Vec::new();
    let mut i: usize = 0;
    while i < entries.len()
        invariant
            i <= entries@.len(),
            out@.len() == files_before(entries@, i as int),
            forall|i0: int, k: int|
                0 <= i0 < i && 0 <= k < entries@[i0].files@.len() ==> out@[files_before(
                    entries@,
                    i0,
                ) + k].file_id == (#[trigger] entries@[i0].files@[k]).file_id && out@[files_before(
                    entries@,
                    i0,
                ) + k].name@ == summary_name_spec(entries@[i0], k),
        decreases entries@.len() - i,
    {
        let entry = &entries[i];
        let mut k: usize = 0;
        while k < entry.files.len()
            invariant
                k <= entry.files@.len(),
                i < entries@.len(),
                entry == &entries[i as int],
                out@.len() == files_before(entries@, i as int) + k,
                forall|i0: int, k0: int|
                    0 <= i0 < i && 0 <= k0 < entries@[i0].files@.len() ==> out@[files_before(
                        entries@,
                        i0,
                    ) + k0].file_id == (#[trigger] entries@[i0].files@[k0]).file_id && out@[
                        files_before(entries@, i0) + k0].name@ == summary_name_spec(
                        entries@[i0],
                        k0,
                    ),
                forall|k0: int|
                    0 <= k0 < k ==> out@[files_before(entries@, i as int) + k0].file_id == (
                    #[trigger] entries@[i as int].files@[k0]).file_id && out@[files_before(
                        entries@,
                        i as int,
                    ) + k0].name@ == summary_name_spec(entries@[i as int], k0),
            decreases entry.files@.len() - k,
        {
            let name = summary_name(entry, k);
            let ghost out0 = out@;
            out.push(SubtitleSummary { name, file_id: entry.files[k].file_id });
            proof {
                assert forall|i0: int, k0: int|
                    0 <= i0 < i && 0 <= k0 < entries@[i0].files@.len() implies out@[files_before(
                    entries@,
                    i0,
                ) + k0].file_id == (#[trigger] entries@[i0].files@[k0]).file_id && out@[
                    files_before(entries@, i0) + k0].name@ == summary_name_spec(
                    entries@[i0],
                    k0,
                ) by {
                    lemma_files_before_mono(entries@, i0 + 1, i as int);
                    assert(files_before(entries@, i0) + k0 < files_before(entries@, i0 + 1));
                    assert(out@[files_before(entries@, i0) + k0] == out0[files_before(
                        entries@,
                        i0,
                    ) + k0]);
                }
            }
            k = k + 1;
        }
        proof {
            assert forall|i0: int, k0: int|
                0 <= i0 < i + 1 && 0 <= k0 < entries@[i0].files@.len() implies out@[files_before(
                entries@,
                i0,
            ) + k0].file_id == (#[trigger] entries@[i0].files@[k0]).file_id && out@[files_before(
                entries@,
                i0,
            ) + k0].name@ == summary_name_spec(entries@[i0], k0) by {
                if i0 == i {
                    assert(out@[files_before(entries@, i as int) + k0].file_id == entries@[i as int].files@[k0].file_id
                        && out@[files_before(entries@, i as int) + k0].name@ == summary_name_spec(
                        entries@[i as int],
                        k0,
                    ));
                }
            }
        }
        i = i + 1;
    }
    if out.len() == 0 {
        Err(SubtitleError::NoSubtitlesFound)
    } else {
        Ok(out)
    }
}

/// The cached session token of the subtitle-search provider: empty until the
/// first successful login, then fixed for the remainder of the process.
pub struct TokenCache {
    token: Option<String>,
}

impl View for TokenCache {
    type V = Option<Seq<char>>;

    closed spec fn view(&self) -> Option<Seq<char>> {
        match self.token {
            Some(ref t) => Some(t@),
            None => None,
        }
    }
}

impl TokenCache {
    /// An empty cache: no login has happened yet.
    pub fn new() -> (c: TokenCache)
        ensures
            c@ is None,
    {
        TokenCache { token: None }
    }

    /// The cached token, if any.
    pub fn get(&self) -> (r: Option<&String>)
        ensures
            match r {
                Some(t) => self@ == Some(t@),
                None => self@ is None,
            },
    {
        match self.token {
            Some(ref t) => Some(t),
            None => None,
        }
    }

    /// Stores a freshly obtained token, unless one is already cached: the
    /// first token wins and later fills change nothing, so a token is
    /// obtained at most once per run.
    pub fn fill(&mut self, t: String)
        ensures
            final(self)@ == if old(self)@ is Some {
                old(self)@
            } else {
                Some(t@)
            },
    {
        match self.token {
            Some(_) => {
            },
            None => {
                self.token = Some(t);
            },
        }
    }
}

/// What `urlencoding::encode` returns for a given string: a function of the
/// characters alone.
pub uninterp spec fn url_encoded(s: Seq<char>) -> Seq<char>;

/// An ASCII character that percent-encoding passes through unchanged.
pub open spec fn is_unreserved(c: char) -> bool {
    ('a' <= c && c <= 'z') || ('A' <= c && c <= 'Z') || ('0' <= c && c <= '9') || c == '-' || c
        == '_' || c == '.' || c == '~'
}

/// Relies on `urlencoding::encode`: percent-encodes every byte except ASCII
/// alphanumerics and `-`, `_`, `.`, `~`, so a string of unreserved
/// characters passes through unchanged, and the result depends on the input
/// alone.
#[verifier::external_body]
fn encode_query(s: &str) -> (r: String)
    ensures
        r@ == url_encoded(s@),
        (forall|i: int| 0 <= i < s@.len() ==> is_unreserved(#[trigger] s@[i])) ==> r@ == s@,
{
    urlencoding::encode(s).into_owned()
}

/// Percent-encodes a show title for the metadata provider's search URL.
pub fn build_search_query(title: &str) -> (r: String)
    ensures
        r@ == url_encoded(title@),
        (forall|i: int| 0 <= i < title@.len() ==> is_unreserved(#[trigger] title@[i])) ==> r@
            == title@,
{
    encode_query(title)
}

} // verus!
