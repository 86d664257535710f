//! Hybrid search: the query model, and the merging of lexical and semantic hits
//! into one ranked, thresholded and paginated list.
//!
//! Scores are fixed-point integers. A lexical rank and a semantic relevance are
//! counted in thousandths, and so are the two weights; a blended score, and the
//! threshold it is held to, are therefore counted in millionths. A lexical rank of
//! 0.8 is `800`, a weight of 0.6 is `600`, and their product 0.48 is `480_000`.
use vstd::prelude::*;

use crate::domain::{AccountId, EmailId, ThreadId};

verus! {

/// Execution mode of a search.
#[derive(Debug, Clone, Copy, PartialEq, Eq, Structural)]
pub enum SearchMode {
    /// Lexical (full-text) search only.
    FullText,
    /// Semantic search only.
    Semantic,
    /// Both backends, blended.
    Hybrid,
}

impl Default for SearchMode {
    fn default() -> (r: Self)
        ensures
            r == SearchMode::Hybrid,
    {
        SearchMode::Hybrid
    }
}

/// Folder that a search is restricted to.
#[derive(Debug, Clone, PartialEq, Eq)]
pub enum SearchFolder {
    All,
    Inbox,
    Sent,
    Drafts,
    Archive,
    Trash,
    /// A custom label, by name.
    Label(String),
}

/// An inclusive range of dates, in milliseconds since the Unix epoch.
#[derive(Debug, Clone, Copy, PartialEq, Eq, Structural)]
pub struct DateRange {
    pub start: i64,
    pub end: i64,
}

/// A search request: its text, filters, page and mode.
#[derive(Debug, Clone)]
pub struct SearchQuery {
    /// The text searched for (keywords or natural language).
    pub text: String,
    /// Accounts searched; empty means no restriction.
    pub account_ids: Vec<AccountId>,
    pub folder: Option<SearchFolder>,
    pub date_range: Option<DateRange>,
    /// Sender substring filter.
    pub from: Option<String>,
    /// Recipient substring filter.
    pub to: Option<String>,
    pub has_attachment: Option<bool>,
    pub is_unread: Option<bool>,
    pub is_starred: Option<bool>,
    /// Page size.
    pub limit: usize,
    /// Number of ranked hits skipped before the page.
    pub offset: usize,
    pub mode: SearchMode,
}

/// The page size of a new query.
pub const DEFAULT_LIMIT: usize = 50;

impl SearchQuery {
    /// A query for `text`, with no filters, the first page of the default size, in
    /// hybrid mode.
    pub fn new(text: &str) -> (r: Self)
        ensures
            r.text@ == text@,
            r.account_ids@.len() == 0,
            r.folder is None,
            r.date_range is None,
            r.from is None,
            r.to is None,
            r.has_attachment is None,
            r.is_unread is None,
            r.is_starred is None,
            r.limit == DEFAULT_LIMIT,
            r.offset == 0,
            r.mode == SearchMode::Hybrid,
    {
        SearchQuery {
            text: text.to_owned(),
            account_ids: Vec::new(),
            folder: None,
            date_range: None,
            from: None,
            to: None,
            has_attachment: None,
            is_unread: None,
            is_starred: None,
            limit: DEFAULT_LIMIT,
            offset: 0,
            mode: SearchMode::Hybrid,
        }
    }

    /// The query restricted to the given accounts.
    pub fn with_accounts(self, accounts: Vec<AccountId>) -> (r: Self)
        ensures
            r == (SearchQuery { account_ids: accounts, ..self }),
    {
        SearchQuery { account_ids: accounts, ..self }
    }

    /// The query restricted to one folder.
    pub fn with_folder(self, folder: SearchFolder) -> (r: Self)
        ensures
            r == (SearchQuery { folder: Some(folder), ..self }),
    {
        SearchQuery { folder: Some(folder), ..self }
    }

    /// The query restricted to dates from `start` to `end`, both included.
    pub fn with_date_range(self, start: i64, end: i64) -> (r: Self)
        ensures
            r == (SearchQuery { date_range: Some(DateRange { start, end }), ..self }),
    {
        SearchQuery { date_range: Some(DateRange { start, end }), ..self }
    }

    /// The query restricted to senders that contain `from`.
    pub fn with_from(self, from: &str) -> (r: Self)
        ensures
            r.from matches Some(f) && f@ == from@,
            r == (SearchQuery { from: r.from, ..self }),
    {
        SearchQuery { from: Some(from.to_owned()), ..self }
    }

    /// The query restricted to recipients that contain `to`.
    pub fn with_to(self, to: &str) -> (r: Self)
        ensures
            r.to matches Some(t) && t@ == to@,
            r == (SearchQuery { to: r.to, ..self }),
    {
        SearchQuery { to: Some(to.to_owned()), ..self }
    }

    /// The query restricted by whether an email has attachments.
    pub fn with_attachment(self, has_attachment: bool) -> (r: Self)
        ensures
            r == (SearchQuery { has_attachment: Some(has_attachment), ..self }),
    {
        SearchQuery { has_attachment: Some(has_attachment), ..self }
    }

    /// The query with another page size.
    pub fn with_limit(self, limit: usize) -> (r: Self)
        ensures
            r == (SearchQuery { limit, ..self }),
    {
        SearchQuery { limit, ..self }
    }

    /// The query with another number of skipped hits.
    pub fn with_offset(self, offset: usize) -> (r: Self)
        ensures
            r == (SearchQuery { offset, ..self }),
    {
        SearchQuery { offset, ..self }
    }

    /// The query in another mode.
    pub fn with_mode(self, mode: SearchMode) -> (r: Self)
        ensures
            r == (SearchQuery { mode, ..self }),
    {
        SearchQuery { mode, ..self }
    }
}

/// Which backend a hit came from.
#[derive(Debug, Clone, Copy, PartialEq, Eq, Structural)]
pub enum SearchSource {
    /// The lexical backend only.
    FullText,
    /// The semantic backend only.
    Semantic,
    /// Both backends.
    Both,
}

/// A hit of the lexical backend.
#[derive(Debug, Clone)]
pub struct FtsHit {
    pub email_id: EmailId,
    pub thread_id: ThreadId,
    /// The backend's own rank, in thousandths; only a positive rank counts as a match.
    pub rank: i32,
    /// Matching snippet.
    pub snippet: String,
}

/// A hit of the semantic backend.
#[derive(Debug, Clone)]
pub struct SemanticHit {
    pub email_id: EmailId,
    /// Relevance in thousandths (the backend normalises it to 0..=1000).
    pub relevance: u16,
    /// Highlighted matching segments.
    pub highlights: Vec<String>,
}

/// What the metadata store holds of one email.
#[derive(Debug, Clone)]
pub struct EmailMetadata {
    pub email_id: EmailId,
    pub thread_id: ThreadId,
    pub subject: Option<String>,
    /// Default snippet.
    pub snippet: String,
    /// Sender display.
    pub from: String,
    /// Date, in milliseconds since the Unix epoch.
    pub date: i64,
    pub is_read: bool,
}

/// Weights, threshold and toggles of the search service.
#[derive(Debug, Clone, Copy, PartialEq, Eq, Structural)]
pub struct SearchSettings {
    pub semantic_enabled: bool,
    /// Weight of the lexical rank, in thousandths.
    pub fts_weight: i32,
    /// Weight of the semantic relevance, in thousandths.
    pub semantic_weight: i32,
    /// Least blended score that a hit must reach, in millionths.
    pub min_score: i64,
    /// Default page size.
    pub default_limit: usize,
}

impl Default for SearchSettings {
    /// Semantic search on, weights 0.6 and 0.4, threshold 0.3, pages of 50.
    fn default() -> (r: Self)
        ensures
            r == (SearchSettings {
                semantic_enabled: true,
                fts_weight: 600,
                semantic_weight: 400,
                min_score: 300_000,
                default_limit: DEFAULT_LIMIT,
            }),
    {
        SearchSettings {
            semantic_enabled: true,
            fts_weight: 600,
            semantic_weight: 400,
            min_score: 300_000,
            default_limit: DEFAULT_LIMIT,
        }
    }
}

/// One ranked result.
#[derive(Debug, Clone)]
pub struct SearchHit {
    pub email_id: EmailId,
    pub thread_id: ThreadId,
    pub subject: Option<String>,
    /// The lexical snippet where there is a lexical hit, else the default one.
    pub snippet: String,
    /// Sender display.
    pub from: String,
    /// Date, in milliseconds since the Unix epoch.
    pub date: i64,
    pub is_read: bool,
    /// Blended score, in millionths.
    pub score: i64,
    pub source: SearchSource,
    /// Highlights of the semantic hit, if any.
    pub highlights: Vec<String>,
}

/// A page of results.
#[derive(Debug, Clone)]
pub struct SearchResults {
    /// The hits of the page, best first.
    pub hits: Vec<SearchHit>,
    /// Number of hits that passed the threshold, before pagination.
    pub total: usize,
    /// The text searched for.
    pub query: String,
    /// Time taken, in milliseconds.
    pub took_ms: u64,
    /// Whether the semantic backend returned any hit.
    pub used_semantic: bool,
}

/// A result, as mathematical values.
pub struct HitModel {
    pub email_id: Seq<char>,
    pub thread_id: Seq<char>,
    pub subject: Option<Seq<char>>,
    pub snippet: Seq<char>,
    pub from: Seq<char>,
    pub date: i64,
    pub is_read: bool,
    pub score: int,
    pub source: SearchSource,
    pub highlights: Seq<Seq<char>>,
}

/// The texts of a sequence of strings.
pub open spec fn texts(v: Seq<String>) -> Seq<Seq<char>> {
    v.map_values(|s: String| s@)
}

pub open spec fn opt_text(o: Option<String>) -> Option<Seq<char>> {
    match o {
        Some(s) => Some(s@),
        None => None,
    }
}

impl View for SearchHit {
    type V = HitModel;

    open spec fn view(&self) -> HitModel {
        HitModel {
            email_id: self.email_id@,
            thread_id: self.thread_id@,
            subject: opt_text(self.subject),
            snippet: self.snippet@,
            from: self.from@,
            date: self.date,
            is_read: self.is_read,
            score: self.score as int,
            source: self.source,
            highlights: texts(self.highlights@),
        }
    }
}

/// The models of a sequence of hits.
pub open spec fn models(v: Seq<SearchHit>) -> Seq<HitModel> {
    v.map_values(|h: SearchHit| h@)
}

/// The distinct elements of `s`, in the order of their first occurrence.
pub open spec fn distinct(s: Seq<Seq<char>>) -> Seq<Seq<char>>
    decreases s.len(),
{
    if s.len() == 0 {
        s
    } else {
        let d = distinct(s.drop_last());
        if d.contains(s.last()) {
            d
        } else {
            d.push(s.last())
        }
    }
}

pub open spec fn lexical_ids(fts: Seq<FtsHit>) -> Seq<Seq<char>> {
    fts.map_values(|h: FtsHit| h.email_id@)
}

pub open spec fn semantic_ids(sem: Seq<SemanticHit>) -> Seq<Seq<char>> {
    sem.map_values(|h: SemanticHit| h.email_id@)
}

/// Every identity of either list once: lexical hits first, in order of first
/// occurrence.
pub open spec fn union_model(fts: Seq<FtsHit>, sem: Seq<SemanticHit>) -> Seq<Seq<char>> {
    distinct(lexical_ids(fts) + semantic_ids(sem))
}

/// Whether `id` is among the texts of `v`.
fn contains_text(v: &Vec<EmailId>, id: &EmailId) -> (r: bool)
    ensures
        r == texts(v@).contains(id@),
{
    let mut i: usize = 0;
    while i < v.len()
        invariant
            i <= v.len(),
            forall|k: int| 0 <= k < i ==> v@[k]@ != id@,
        decreases v.len() - i,
    {
        if v[i] == *id {
            assert(texts(v@)[i as int] == id@);
            return true;
        }
        i = i + 1;
    }
    assert(!texts(v@).contains(id@)) by {
        if texts(v@).contains(id@) {
            let k = choose|k: int| 0 <= k < texts(v@).len() && texts(v@)[k] == id@;
            assert(v@[k]@ == id@);
        }
    }
    false
}

/// Appends `id` to `out` unless it is already there.
fn push_distinct(out: &mut Vec<EmailId>, id: &EmailId, Ghost(s): Ghost<Seq<Seq<char>>>)
    requires
        texts(old(out)@) == distinct(s),
    ensures
        texts(final(out)@) == distinct(s.push(id@)),
{
    assert(s.push(id@).drop_last() == s);
    if !contains_text(out, id) {
        out.push(id.clone());
        assert(texts(final(out)@) =~= texts(old(out)@).push(id@));
    }
}

/// The identities of the union of both lists, each once: those of the lexical hits
/// first, each in order of its first occurrence.
pub fn union_ids(fts: &Vec<FtsHit>, sem: &Vec<SemanticHit>) -> (r: Vec<EmailId>)
    ensures
        texts(r@) == union_model(fts@, sem@),
{
    let mut out: Vec<EmailId> = Vec::new();
    let ghost all = lexical_ids(fts@) + semantic_ids(sem@);
    assert(all.take(0) =~= Seq::<Seq<char>>::empty());
    assert(texts(out@) =~= Seq::<Seq<char>>::empty());
    for i in 0..fts.len()
        invariant
            all == lexical_ids(fts@) + semantic_ids(sem@),
            texts(out@) == distinct(all.take(i as int)),
    {
        assert(all.take(i + 1) =~= all.take(i as int).push(fts@[i as int].email_id@));
        push_distinct(&mut out, &fts[i].email_id, Ghost(all.take(i as int)));
    }
    let n = fts.len();
    for j in 0..sem.len()
        invariant
            n == fts@.len(),
            all == lexical_ids(fts@) + semantic_ids(sem@),
            texts(out@) == distinct(all.take(n + j)),
    {
        assert(all.take(n + j + 1) =~= all.take(n + j).push(sem@[j as int].email_id@));
        push_distinct(&mut out, &sem[j].email_id, Ghost(all.take(n + j)));
    }
    assert(all.take(n + sem@.len()) =~= all);
    out
}

/// The rank of the last lexical hit for `id`, or 0 where there is none.
pub open spec fn lexical_score(fts: Seq<FtsHit>, id: Seq<char>) -> int
    decreases fts.len(),
{
    if fts.len() == 0 {
        0
    } else if fts.last().email_id@ == id {
        fts.last().rank as int
    } else {
        lexical_score(fts.drop_last(), id)
    }
}

/// The relevance of the last semantic hit for `id`, or 0 where there is none.
pub open spec fn semantic_score(sem: Seq<SemanticHit>, id: Seq<char>) -> int
    decreases sem.len(),
{
    if sem.len() == 0 {
        0
    } else if sem.last().email_id@ == id {
        sem.last().relevance as int
    } else {
        semantic_score(sem.drop_last(), id)
    }
}

/// The first lexical hit for `id`.
pub open spec fn first_lexical(fts: Seq<FtsHit>, id: Seq<char>) -> Option<FtsHit>
    decreases fts.len(),
{
    if fts.len() == 0 {
        None
    } else {
        match first_lexical(fts.drop_last(), id) {
            Some(h) => Some(h),
            None => if fts.last().email_id@ == id {
                Some(fts.last())
            } else {
                None
            },
        }
    }
}

/// The first semantic hit for `id`.
pub open spec fn first_semantic(sem: Seq<SemanticHit>, id: Seq<char>) -> Option<SemanticHit>
    decreases sem.len(),
{
    if sem.len() == 0 {
        None
    } else {
        match first_semantic(sem.drop_last(), id) {
            Some(h) => Some(h),
            None => if sem.last().email_id@ == id {
                Some(sem.last())
            } else {
                None
            },
        }
    }
}

/// The last metadata record for `id`: a later record replaces an earlier one.
pub open spec fn find_metadata(metas: Seq<EmailMetadata>, id: Seq<char>) -> Option<EmailMetadata>
    decreases metas.len(),
{
    if metas.len() == 0 {
        None
    } else if metas.last().email_id@ == id {
        Some(metas.last())
    } else {
        find_metadata(metas.drop_last(), id)
    }
}

/// Where a hit with these scores came from; none where neither is positive.
pub open spec fn provenance(lexical: int, semantic: int) -> Option<SearchSource> {
    if lexical > 0 && semantic > 0 {
        Some(SearchSource::Both)
    } else if lexical > 0 {
        Some(SearchSource::FullText)
    } else if semantic > 0 {
        Some(SearchSource::Semantic)
    } else {
        None
    }
}

/// The blended score: each score times its weight, summed.
pub open spec fn blend(lexical: int, semantic: int, st: SearchSettings) -> int {
    lexical * st.fts_weight + semantic * st.semantic_weight
}

/// The hit for `id`, if it has metadata, comes from some backend and reaches the
/// threshold.
pub open spec fn candidate(
    fts: Seq<FtsHit>,
    sem: Seq<SemanticHit>,
    metas: Seq<EmailMetadata>,
    st: SearchSettings,
    id: Seq<char>,
) -> Option<HitModel> {
    let l = lexical_score(fts, id);
    let s = semantic_score(sem, id);
    match find_metadata(metas, id) {
        None => None,
        Some(m) => match provenance(l, s) {
            None => None,
            Some(source) => if blend(l, s, st) < st.min_score {
                None
            } else {
                Some(
                    HitModel {
                        email_id: id,
                        thread_id: m.thread_id@,
                        subject: opt_text(m.subject),
                        snippet: match first_lexical(fts, id) {
                            Some(h) => h.snippet@,
                            None => m.snippet@,
                        },
                        from: m.from@,
                        date: m.date,
                        is_read: m.is_read,
                        score: blend(l, s, st),
                        source,
                        highlights: match first_semantic(sem, id) {
                            Some(h) => texts(h.highlights@),
                            None => Seq::empty(),
                        },
                    },
                )
            },
        },
    }
}

fn lexical_score_of(fts: &Vec<FtsHit>, id: &EmailId) -> (r: i32)
    ensures
        r as int == lexical_score(fts@, id@),
{
    let mut r: i32 = 0;
    for i in 0..fts.len()
        invariant
            r as int == lexical_score(fts@.take(i as int), id@),
    {
        assert(fts@.take(i + 1).drop_last() =~= fts@.take(i as int));
        if fts[i].email_id == *id {
            r = fts[i].rank;
        }
    }
    assert(fts@.take(fts@.len() as int) =~= fts@);
    r
}

fn semantic_score_of(sem: &Vec<SemanticHit>, id: &EmailId) -> (r: u16)
    ensures
        r as int == semantic_score(sem@, id@),
{
    let mut r: u16 = 0;
    for i in 0..sem.len()
        invariant
            r as int == semantic_score(sem@.take(i as int), id@),
    {
        assert(sem@.take(i + 1).drop_last() =~= sem@.take(i as int));
        if sem[i].email_id == *id {
            r = sem[i].relevance;
        }
    }
    assert(sem@.take(sem@.len() as int) =~= sem@);
    r
}

fn first_lexical_index(fts: &Vec<FtsHit>, id: &EmailId) -> (r: Option<usize>)
    ensures
        match r {
            Some(k) => k < fts@.len() && first_lexical(fts@, id@) == Some(fts@[k as int]),
            None => first_lexical(fts@, id@) is None,
        },
{
    let mut r: Option<usize> = None;
    for i in 0..fts.len()
        invariant
            match r {
                Some(k) => k < i && first_lexical(fts@.take(i as int), id@) == Some(fts@[k as int]),
                None => first_lexical(fts@.take(i as int), id@) is None,
            },
    {
        assert(fts@.take(i + 1).drop_last() =~= fts@.take(i as int));
        if r.is_none() && fts[i].email_id == *id {
            r = Some(i);
        }
    }
    assert(fts@.take(fts@.len() as int) =~= fts@);
    r
}

fn first_semantic_index(sem: &Vec<SemanticHit>, id: &EmailId) -> (r: Option<usize>)
    ensures
        match r {
            Some(k) => k < sem@.len() && first_semantic(sem@, id@) == Some(sem@[k as int]),
            None => first_semantic(sem@, id@) is None,
        },
{
    let mut r: Option<usize> = None;
    for i in 0..sem.len()
        invariant
            match r {
                Some(k) => k < i && first_semantic(sem@.take(i as int), id@) == Some(sem@[k as int]),
                None => first_semantic(sem@.take(i as int), id@) is None,
            },
    {
        assert(sem@.take(i + 1).drop_last() =~= sem@.take(i as int));
        if r.is_none() && sem[i].email_id == *id {
            r = Some(i);
        }
    }
    assert(sem@.take(sem@.len() as int) =~= sem@);
    r
}

fn metadata_index(metas: &Vec<EmailMetadata>, id: &EmailId) -> (r: Option<usize>)
    ensures
        match r {
            Some(k) => k < metas@.len() && find_metadata(metas@, id@) == Some(metas@[k as int]),
            None => find_metadata(metas@, id@) is None,
        },
{
    let mut r: Option<usize> = None;
    for i in 0..metas.len()
        invariant
            match r {
                Some(k) => k < i && find_metadata(metas@.take(i as int), id@) == Some(metas@[k as int]),
                None => find_metadata(metas@.take(i as int), id@) is None,
            },
    {
        assert(metas@.take(i + 1).drop_last() =~= metas@.take(i as int));
        if metas[i].email_id == *id {
            r = Some(i);
        }
    }
    assert(metas@.take(metas@.len() as int) =~= metas@);
    r
}

/// The blended score of a lexical rank and a semantic relevance.
pub fn blended_score(lexical: i32, semantic: u16, st: &SearchSettings) -> (r: i64)
    ensures
        r as int == blend(lexical as int, semantic as int, *st),
{
    let l = lexical as i64;
    let s = semantic as i64;
    let wl = st.fts_weight as i64;
    let ws = st.semantic_weight as i64;
    assert(-0x4000_0000_0000_0000 <= l * wl <= 0x4000_0000_0000_0000) by (nonlinear_arith)
        requires
            -0x8000_0000 <= l < 0x8000_0000,
            -0x8000_0000 <= wl < 0x8000_0000,
    ;
    assert(-0x1_0000_0000_0000 <= s * ws <= 0x1_0000_0000_0000) by (nonlinear_arith)
        requires
            0 <= s < 0x1_0000,
            -0x8000_0000 <= ws < 0x8000_0000,
    ;
    l * wl + s * ws
}

fn clone_texts(v: &Vec<String>) -> (r: Vec<String>)
    ensures
        texts(r@) == texts(v@),
{
    let mut r: Vec<String> = Vec::new();
    for i in 0..v.len()
        invariant
            r@.len() == i,
            texts(r@) == texts(v@).take(i as int),
    {
        let c = v[i].clone();
        assert(c@ == v@[i as int]@);
        let ghost before = r@;
        r.push(c);
        assert forall|k: int| 0 <= k <= i implies #[trigger] texts(r@)[k] == texts(v@)[k] by {
            if k < i {
                assert(texts(before)[k] == texts(v@).take(i as int)[k]);
            }
        }
        assert(texts(r@) =~= texts(v@).take(i + 1));
    }
    assert(texts(v@).take(v@.len() as int) =~= texts(v@));
    r
}

fn clone_opt_text(o: &Option<String>) -> (r: Option<String>)
    ensures
        opt_text(r) == opt_text(*o),
{
    match o {
        Some(s) => Some(s.clone()),
        None => None,
    }
}

/// The hit for `id`: present when `id` has metadata, comes from some backend and
/// reaches the threshold.
pub fn build_candidate(
    fts: &Vec<FtsHit>,
    sem: &Vec<SemanticHit>,
    metas: &Vec<EmailMetadata>,
    st: &SearchSettings,
    id: &EmailId,
) -> (r: Option<SearchHit>)
    ensures
        match r {
            Some(h) => candidate(fts@, sem@, metas@, *st, id@) == Some(h@),
            None => candidate(fts@, sem@, metas@, *st, id@) is None,
        },
{
    let m = match metadata_index(metas, id) {
        Some(k) => &metas[k],
        None => return None,
    };
    let l = lexical_score_of(fts, id);
    let s = semantic_score_of(sem, id);
    let source = if l > 0 && s > 0 {
        SearchSource::Both
    } else if l > 0 {
        SearchSource::FullText
    } else if s > 0 {
        SearchSource::Semantic
    } else {
        return None;
    };
    let score = blended_score(l, s, st);
    if score < st.min_score {
        return None;
    }
    let snippet = match first_lexical_index(fts, id) {
        Some(k) => fts[k].snippet.clone(),
        None => m.snippet.clone(),
    };
    let highlights = match first_semantic_index(sem, id) {
        Some(k) => clone_texts(&sem[k].highlights),
        None => Vec::new(),
    };
    let h = SearchHit {
        email_id: id.clone(),
        thread_id: m.thread_id.clone(),
        subject: clone_opt_text(&m.subject),
        snippet,
        from: m.from.clone(),
        date: m.date,
        is_read: m.is_read,
        score,
        source,
        highlights,
    };
    assert(texts(h.highlights@) =~= match first_semantic(sem@, id@) {
        Some(x) => texts(x.highlights@),
        None => Seq::empty(),
    });
    Some(h)
}

/// The candidates of the identities `ids`, in that order.
pub open spec fn candidates(
    fts: Seq<FtsHit>,
    sem: Seq<SemanticHit>,
    metas: Seq<EmailMetadata>,
    st: SearchSettings,
    ids: Seq<Seq<char>>,
) -> Seq<HitModel>
    decreases ids.len(),
{
    if ids.len() == 0 {
        Seq::empty()
    } else {
        let c = candidates(fts, sem, metas, st, ids.drop_last());
        match candidate(fts, sem, metas, st, ids.last()) {
            Some(h) => c.push(h),
            None => c,
        }
    }
}

/// `x` placed into `s` after every element whose score is at least its own.
pub open spec fn insert_desc(s: Seq<HitModel>, x: HitModel) -> Seq<HitModel>
    decreases s.len(),
{
    if s.len() == 0 {
        seq![x]
    } else if s.last().score >= x.score {
        s.push(x)
    } else {
        insert_desc(s.drop_last(), x).push(s.last())
    }
}

/// `s` sorted by descending score; hits of equal score keep their order.
pub open spec fn sort_desc(s: Seq<HitModel>) -> Seq<HitModel>
    decreases s.len(),
{
    if s.len() == 0 {
        s
    } else {
        insert_desc(sort_desc(s.drop_last()), s.last())
    }
}

/// The ranked hits of a search: a hit for every identity of the union that has
/// metadata, comes from some backend and reaches the threshold, best first.
pub open spec fn merged(
    fts: Seq<FtsHit>,
    sem: Seq<SemanticHit>,
    metas: Seq<EmailMetadata>,
    st: SearchSettings,
) -> Seq<HitModel> {
    sort_desc(candidates(fts, sem, metas, st, union_model(fts, sem)))
}

proof fn lemma_insert_desc_at(s: Seq<HitModel>, x: HitModel, p: int)
    requires
        0 <= p <= s.len(),
        forall|k: int| p <= k < s.len() ==> s[k].score < x.score,
        p == 0 || s[p - 1].score >= x.score,
    ensures
        insert_desc(s, x) == s.take(p).push(x) + s.skip(p),
    decreases s.len(),
{
    if s.len() == 0 {
        assert(s.take(p).push(x) + s.skip(p) =~= seq![x]);
    } else if p == s.len() {
        assert(s.take(p).push(x) + s.skip(p) =~= s.push(x));
    } else {
        lemma_insert_desc_at(s.drop_last(), x, p);
        assert(s.drop_last().take(p).push(x) + s.drop_last().skip(p) + seq![s.last()]
            =~= s.take(p).push(x) + s.skip(p));
    }
}

/// Places `x` in the sorted `v` after every hit whose score is at least its own.
fn insert_sorted(v: &mut Vec<SearchHit>, x: SearchHit)
    ensures
        models(final(v)@) == insert_desc(models(old(v)@), x@),
{
    let mut p = v.len();
    while p > 0 && v[p - 1].score < x.score
        invariant
            p <= v@.len(),
            forall|k: int| p <= k < v@.len() ==> v@[k].score < x.score,
        decreases p,
    {
        p = p - 1;
    }
    let ghost m = models(v@);
    proof {
        lemma_insert_desc_at(m, x@, p as int);
    }
    v.insert(p, x);
    assert(models(v@) =~= m.take(p as int).push(x@) + m.skip(p as int));
}

/// The ranked hits of a search, best first, from the hits of both backends and the
/// metadata of their identities.
pub fn merge_results(
    fts: &Vec<FtsHit>,
    sem: &Vec<SemanticHit>,
    metas: &Vec<EmailMetadata>,
    st: &SearchSettings,
) -> (r: Vec<SearchHit>)
    ensures
        models(r@) == merged(fts@, sem@, metas@, *st),
{
    let ids = union_ids(fts, sem);
    let ghost u = texts(ids@);
    let mut out: Vec<SearchHit> = Vec::new();
    assert(models(out@) =~= sort_desc(candidates(fts@, sem@, metas@, *st, u.take(0))));
    for i in 0..ids.len()
        invariant
            u == texts(ids@),
            models(out@) == sort_desc(candidates(fts@, sem@, metas@, *st, u.take(i as int))),
    {
        assert(u.take(i + 1).drop_last() =~= u.take(i as int));
        let ghost c = candidates(fts@, sem@, metas@, *st, u.take(i as int));
        match build_candidate(fts, sem, metas, st, &ids[i]) {
            Some(h) => {
                assert(c.push(h@).drop_last() =~= c);
                insert_sorted(&mut out, h);
            },
            None => {},
        }
    }
    assert(u.take(ids@.len() as int) =~= u);
    out
}

/// The page of `s` that skips `offset` elements and holds at most `limit`.
pub open spec fn page<A>(s: Seq<A>, offset: int, limit: int) -> Seq<A> {
    let start = if offset < s.len() {
        offset
    } else {
        s.len() as int
    };
    let end = if offset + limit < s.len() {
        offset + limit
    } else {
        s.len() as int
    };
    s.subrange(start, end)
}

/// The page of `v` that skips `offset` hits and holds at most `limit`.
pub fn paginate(v: Vec<SearchHit>, offset: usize, limit: usize) -> (r: Vec<SearchHit>)
    ensures
        models(r@) == page(models(v@), offset as int, limit as int),
{
    let ghost m = models(v@);
    let mut v = v;
    if offset >= v.len() {
        assert(models(Seq::<SearchHit>::empty()) =~= page(m, offset as int, limit as int));
        return Vec::new();
    }
    let mut rest = v.split_off(offset);
    rest.truncate(limit);
    assert(models(rest@) =~= page(m, offset as int, limit as int));
    rest
}

/// The page of results of `query`, from the hits of both backends and the metadata
/// of their identities.
pub fn search_results(
    query: &SearchQuery,
    st: &SearchSettings,
    fts: &Vec<FtsHit>,
    sem: &Vec<SemanticHit>,
    metas: &Vec<EmailMetadata>,
    took_ms: u64,
) -> (r: SearchResults)
    ensures
        models(r.hits@) == page(
            merged(fts@, sem@, metas@, *st),
            query.offset as int,
            query.limit as int,
        ),
        r.total == merged(fts@, sem@, metas@, *st).len(),
        r.query@ == query.text@,
        r.took_ms == took_ms,
        r.used_semantic == (sem@.len() > 0),
{
    let all = merge_results(fts, sem, metas, st);
    let total = all.len();
    let hits = paginate(all, query.offset, query.limit);
    SearchResults { hits, total, query: query.text.clone(), took_ms, used_semantic: sem.len() > 0 }
}

/// Which backends a search calls.
#[derive(Debug, Clone, Copy, PartialEq, Eq, Structural)]
pub struct BackendPlan {
    pub lexical: bool,
    pub semantic: bool,
}

/// The backends that a search in `mode` calls. The semantic backend is called only
/// where it is enabled and configured; where it is not, the lexical backend takes
/// its place.
pub fn plan_backends(mode: SearchMode, semantic_enabled: bool, semantic_configured: bool) -> (r:
    BackendPlan)
    ensures
        mode == SearchMode::FullText ==> r == (BackendPlan { lexical: true, semantic: false }),
        mode == SearchMode::Semantic ==> r == (if semantic_enabled && semantic_configured {
            BackendPlan { lexical: false, semantic: true }
        } else {
            BackendPlan { lexical: true, semantic: false }
        }),
        mode == SearchMode::Hybrid ==> r == (BackendPlan {
            lexical: true,
            semantic: semantic_enabled && semantic_configured,
        }),
{
    let semantic = semantic_enabled && semantic_configured;
    match mode {
        SearchMode::FullText => BackendPlan { lexical: true, semantic: false },
        SearchMode::Semantic => BackendPlan { lexical: !semantic, semantic },
        SearchMode::Hybrid => BackendPlan { lexical: true, semantic },
    }
}

/// The hits to merge, from what the two backends returned (an empty list for a
/// backend that was not called). A lexical failure is the search's failure; a
/// semantic failure counts as no semantic hits.
pub fn gather_hits<E, F>(
    lexical: Result<Vec<FtsHit>, E>,
    semantic: Result<Vec<SemanticHit>, F>,
) -> (r: Result<(Vec<FtsHit>, Vec<SemanticHit>), E>)
    ensures
        match lexical {
            Err(e) => r == Err::<(Vec<FtsHit>, Vec<SemanticHit>), E>(e),
            Ok(l) => match r {
                Ok((l2, s2)) => l2 == l && match semantic {
                    Ok(s) => s2 == s,
                    Err(_) => s2@.len() == 0,
                },
                Err(_) => false,
            },
        },
{
    match lexical {
        Err(e) => Err(e),
        Ok(l) => match semantic {
            Ok(s) => Ok((l, s)),
            Err(_) => Ok((l, Vec::new())),
        },
    }
}

/// Whether the scores of `s` never increase from first to last.
pub open spec fn sorted_desc(s: Seq<HitModel>) -> bool {
    forall|i: int, j: int| 0 <= i < j < s.len() ==> s[i].score >= s[j].score
}

/// How many elements of `s` have the identity `id`.
pub open spec fn count_id(s: Seq<HitModel>, id: Seq<char>) -> nat
    decreases s.len(),
{
    if s.len() == 0 {
        0
    } else {
        count_id(s.drop_last(), id) + if s.last().email_id == id {
            1nat
        } else {
            0nat
        }
    }
}

proof fn lemma_count_push(s: Seq<HitModel>, x: HitModel, id: Seq<char>)
    ensures
        count_id(s.push(x), id) == count_id(s, id) + if x.email_id == id {
            1nat
        } else {
            0nat
        },
{
    assert(s.push(x).drop_last() =~= s);
}

proof fn lemma_insert_desc(s: Seq<HitModel>, x: HitModel)
    ensures
        insert_desc(s, x).len() == s.len() + 1,
        forall|k: int|
            0 <= k < s.len() + 1 ==> insert_desc(s, x)[k] == x || s.contains(
                #[trigger] insert_desc(s, x)[k],
            ),
        forall|id: Seq<char>|
            #[trigger] count_id(insert_desc(s, x), id) == count_id(s, id) + if x.email_id == id {
                1nat
            } else {
                0nat
            },
        sorted_desc(s) ==> sorted_desc(insert_desc(s, x)),
    decreases s.len(),
{
    let r = insert_desc(s, x);
    if s.len() == 0 {
        assert forall|id: Seq<char>| #[trigger]
            count_id(r, id) == count_id(s, id) + if x.email_id == id {
                1nat
            } else {
                0nat
            } by {
            lemma_count_push(s, x, id);
            assert(s.push(x) =~= r);
        }
    } else if s.last().score >= x.score {
        assert forall|k: int| 0 <= k < s.len() + 1 implies r[k] == x || s.contains(#[trigger] r[k]) by {
            if k < s.len() {
                assert(r[k] == s[k]);
            }
        }
        assert forall|id: Seq<char>| #[trigger]
            count_id(r, id) == count_id(s, id) + if x.email_id == id {
                1nat
            } else {
                0nat
            } by {
            lemma_count_push(s, x, id);
        }
    } else {
        let d = s.drop_last();
        let t = insert_desc(d, x);
        lemma_insert_desc(d, x);
        assert(r == t.push(s.last()));
        assert forall|k: int| 0 <= k < s.len() + 1 implies r[k] == x || s.contains(#[trigger] r[k]) by {
            if k < s.len() {
                assert(r[k] == t[k]);
                if t[k] != x {
                    assert(d.contains(t[k]));
                    let j = choose|j: int| 0 <= j < d.len() && d[j] == t[k];
                    assert(s[j] == t[k]);
                }
            } else {
                assert(r[k] == s[s.len() - 1]);
            }
        }
        assert forall|id: Seq<char>| #[trigger]
            count_id(r, id) == count_id(s, id) + if x.email_id == id {
                1nat
            } else {
                0nat
            } by {
            lemma_count_push(t, s.last(), id);
            assert(count_id(t, id) == count_id(d, id) + if x.email_id == id {
                1nat
            } else {
                0nat
            });
        }
        if sorted_desc(s) {
            assert(sorted_desc(d));
            assert forall|i: int, j: int| 0 <= i < j < r.len() implies r[i].score
                >= r[j].score by {
                if j == r.len() - 1 {
                    assert(r[j] == s.last());
                    assert(r[i] == t[i]);
                    if t[i] != x {
                        let m = choose|m: int| 0 <= m < d.len() && d[m] == t[i];
                        assert(s[m] == t[i]);
                    }
                } else {
                    assert(r[i] == t[i] && r[j] == t[j]);
                }
            }
        }
    }
}

proof fn lemma_sort_desc(s: Seq<HitModel>)
    ensures
        sort_desc(s).len() == s.len(),
        forall|k: int| 0 <= k < s.len() ==> s.contains(#[trigger] sort_desc(s)[k]),
        forall|id: Seq<char>| #[trigger] count_id(sort_desc(s), id) == count_id(s, id),
        sorted_desc(sort_desc(s)),
    decreases s.len(),
{
    if s.len() > 0 {
        let d = s.drop_last();
        lemma_sort_desc(d);
        lemma_insert_desc(sort_desc(d), s.last());
        let r = sort_desc(s);
        assert forall|k: int| 0 <= k < s.len() implies s.contains(#[trigger] r[k]) by {
            if r[k] != s.last() {
                assert(sort_desc(d).contains(r[k]));
                let j = choose|j: int| 0 <= j < d.len() && sort_desc(d)[j] == r[k];
                let m = choose|m: int| 0 <= m < d.len() && d[m] == sort_desc(d)[j];
                assert(s[m] == r[k]);
            } else {
                assert(s[s.len() - 1] == r[k]);
            }
        }
        assert forall|id: Seq<char>| #[trigger] count_id(r, id) == count_id(s, id) by {
            assert(count_id(s, id) == count_id(d, id) + if s.last().email_id == id {
                1nat
            } else {
                0nat
            });
        }
    }
}

proof fn lemma_candidates(
    fts: Seq<FtsHit>,
    sem: Seq<SemanticHit>,
    metas: Seq<EmailMetadata>,
    st: SearchSettings,
    ids: Seq<Seq<char>>,
)
    requires
        ids.no_duplicates(),
    ensures
        forall|k: int|
            0 <= k < candidates(fts, sem, metas, st, ids).len() ==> candidate(
                fts,
                sem,
                metas,
                st,
                (#[trigger] candidates(fts, sem, metas, st, ids)[k]).email_id,
            ) == Some(candidates(fts, sem, metas, st, ids)[k]),
        forall|id: Seq<char>|
            #[trigger] count_id(candidates(fts, sem, metas, st, ids), id) == if ids.contains(id)
                && candidate(fts, sem, metas, st, id) is Some {
                1nat
            } else {
                0nat
            },
    decreases ids.len(),
{
    if ids.len() > 0 {
        let d = ids.drop_last();
        assert(d.no_duplicates());
        lemma_candidates(fts, sem, metas, st, d);
        let c = candidates(fts, sem, metas, st, d);
        let x = ids.last();
        assert forall|id: Seq<char>| #[trigger]
            count_id(candidates(fts, sem, metas, st, ids), id) == if ids.contains(id) && candidate(
                fts,
                sem,
                metas,
                st,
                id,
            ) is Some {
                1nat
            } else {
                0nat
            } by {
            if id == x {
                assert(!d.contains(x));
                assert(ids[ids.len() - 1] == x);
            } else {
                assert(ids.contains(id) == d.contains(id)) by {
                    if ids.contains(id) {
                        let j = choose|j: int| 0 <= j < ids.len() && ids[j] == id;
                        assert(d[j] == id);
                    }
                }
            }
            match candidate(fts, sem, metas, st, x) {
                Some(h) => lemma_count_push(c, h, id),
                None => {},
            }
        }
    }
}

proof fn lemma_distinct(s: Seq<Seq<char>>)
    ensures
        distinct(s).no_duplicates(),
        forall|y: Seq<char>| #[trigger] distinct(s).contains(y) <==> s.contains(y),
    decreases s.len(),
{
    if s.len() > 0 {
        let d = s.drop_last();
        lemma_distinct(d);
        let dd = distinct(d);
        assert forall|y: Seq<char>| #[trigger] distinct(s).contains(y) <==> s.contains(y) by {
            assert(s[s.len() - 1] == s.last());
            assert(s.contains(y) <==> (d.contains(y) || y == s.last())) by {
                if s.contains(y) && y != s.last() {
                    let j = choose|j: int| 0 <= j < s.len() && s[j] == y;
                    assert(d[j] == y);
                }
                if d.contains(y) {
                    let j = choose|j: int| 0 <= j < d.len() && d[j] == y;
                    assert(s[j] == y);
                }
            }
            if !dd.contains(s.last()) {
                let e = dd.push(s.last());
                assert(distinct(s) == e);
                assert(e[dd.len() as int] == s.last());
                assert(e.contains(y) <==> (dd.contains(y) || y == s.last())) by {
                    if e.contains(y) && y != s.last() {
                        let j = choose|j: int| 0 <= j < e.len() && e[j] == y;
                        assert(dd[j] == y);
                    }
                    if dd.contains(y) {
                        let j = choose|j: int| 0 <= j < dd.len() && dd[j] == y;
                        assert(e[j] == y);
                    }
                }
            }
        }
    }
}

/// Where an identity stands in the ranked hits: every hit comes from its candidate,
/// and an identity has one hit if it is in the union and has a candidate, else none.
proof fn lemma_merged(
    fts: Seq<FtsHit>,
    sem: Seq<SemanticHit>,
    metas: Seq<EmailMetadata>,
    st: SearchSettings,
)
    ensures
        forall|k: int|
            0 <= k < merged(fts, sem, metas, st).len() ==> candidate(
                fts,
                sem,
                metas,
                st,
                (#[trigger] merged(fts, sem, metas, st)[k]).email_id,
            ) == Some(merged(fts, sem, metas, st)[k]),
        forall|id: Seq<char>|
            #[trigger] count_id(merged(fts, sem, metas, st), id) == if (lexical_ids(fts).contains(
                id,
            ) || semantic_ids(sem).contains(id)) && candidate(fts, sem, metas, st, id) is Some {
                1nat
            } else {
                0nat
            },
        sorted_desc(merged(fts, sem, metas, st)),
{
    let all = lexical_ids(fts) + semantic_ids(sem);
    let u = union_model(fts, sem);
    lemma_distinct(all);
    lemma_candidates(fts, sem, metas, st, u);
    let c = candidates(fts, sem, metas, st, u);
    lemma_sort_desc(c);
    let m = merged(fts, sem, metas, st);
    assert forall|k: int| 0 <= k < m.len() implies candidate(
        fts,
        sem,
        metas,
        st,
        (#[trigger] m[k]).email_id,
    ) == Some(m[k]) by {
        assert(c.contains(m[k]));
        let j = choose|j: int| 0 <= j < c.len() && c[j] == m[k];
    }
    assert forall|id: Seq<char>|
        (lexical_ids(fts).contains(id) || semantic_ids(sem).contains(id)) <==> #[trigger] all.contains(id) by {
        if lexical_ids(fts).contains(id) {
            let j = choose|j: int| 0 <= j < lexical_ids(fts).len() && lexical_ids(fts)[j] == id;
            assert(all[j] == id);
        }
        if semantic_ids(sem).contains(id) {
            let j = choose|j: int| 0 <= j < semantic_ids(sem).len() && semantic_ids(sem)[j] == id;
            assert(all[lexical_ids(fts).len() + j] == id);
        }
        if all.contains(id) {
            let j = choose|j: int| 0 <= j < all.len() && all[j] == id;
            if j < lexical_ids(fts).len() {
                assert(lexical_ids(fts)[j] == id);
            } else {
                assert(semantic_ids(sem)[j - lexical_ids(fts).len()] == id);
            }
        }
    }
}

/// Every ranked hit carries the blended score of its identity: the lexical rank
/// times the lexical weight plus the semantic relevance times the semantic weight,
/// whatever the weights; and its provenance says which of the two is positive.
pub proof fn lemma_blend_exact(
    fts: Seq<FtsHit>,
    sem: Seq<SemanticHit>,
    metas: Seq<EmailMetadata>,
    st: SearchSettings,
    k: int,
)
    requires
        0 <= k < merged(fts, sem, metas, st).len(),
    ensures
        ({
            let h = merged(fts, sem, metas, st)[k];
            &&& h.score == lexical_score(fts, h.email_id) * st.fts_weight + semantic_score(
                sem,
                h.email_id,
            ) * st.semantic_weight
            &&& Some(h.source) == provenance(
                lexical_score(fts, h.email_id),
                semantic_score(sem, h.email_id),
            )
        }),
{
    lemma_merged(fts, sem, metas, st);
    let h = merged(fts, sem, metas, st)[k];
    assert(candidate(fts, sem, metas, st, h.email_id) == Some(h));
}

/// No ranked hit scores below the threshold, and an identity whose blended score is
/// below it has no hit (so it does not count in the total either).
pub proof fn lemma_threshold(
    fts: Seq<FtsHit>,
    sem: Seq<SemanticHit>,
    metas: Seq<EmailMetadata>,
    st: SearchSettings,
    id: Seq<char>,
)
    ensures
        forall|k: int|
            0 <= k < merged(fts, sem, metas, st).len() ==> (#[trigger] merged(
                fts,
                sem,
                metas,
                st,
            )[k]).score >= st.min_score,
        blend(lexical_score(fts, id), semantic_score(sem, id), st) < st.min_score ==> count_id(
            merged(fts, sem, metas, st),
            id,
        ) == 0,
{
    lemma_merged(fts, sem, metas, st);
    let m = merged(fts, sem, metas, st);
    assert forall|k: int| 0 <= k < m.len() implies (#[trigger] m[k]).score >= st.min_score by {
        assert(candidate(fts, sem, metas, st, m[k].email_id) == Some(m[k]));
    }
    assert(count_id(m, id) == if (lexical_ids(fts).contains(id) || semantic_ids(sem).contains(id))
        && candidate(fts, sem, metas, st, id) is Some {
        1nat
    } else {
        0nat
    });
}

/// Every identity of either hit list that has metadata, comes from some backend with
/// a positive score and reaches the threshold has exactly one ranked hit, also when
/// it is in both lists; every other identity has none.
pub proof fn lemma_union_complete(
    fts: Seq<FtsHit>,
    sem: Seq<SemanticHit>,
    metas: Seq<EmailMetadata>,
    st: SearchSettings,
    id: Seq<char>,
)
    ensures
        count_id(merged(fts, sem, metas, st), id) == if (lexical_ids(fts).contains(id)
            || semantic_ids(sem).contains(id)) && find_metadata(metas, id) is Some && (
        lexical_score(fts, id) > 0 || semantic_score(sem, id) > 0) && blend(
            lexical_score(fts, id),
            semantic_score(sem, id),
            st,
        ) >= st.min_score {
            1nat
        } else {
            0nat
        },
{
    lemma_merged(fts, sem, metas, st);
}

/// The ranked hits never increase in score from first to last.
pub proof fn lemma_sorted(
    fts: Seq<FtsHit>,
    sem: Seq<SemanticHit>,
    metas: Seq<EmailMetadata>,
    st: SearchSettings,
)
    ensures
        sorted_desc(merged(fts, sem, metas, st)),
{
    lemma_merged(fts, sem, metas, st);
}

/// The first `n` pages of size `limit`, one after another.
pub open spec fn pages<A>(s: Seq<A>, limit: int, n: int) -> Seq<A>
    decreases n,
{
    if n <= 0 {
        Seq::empty()
    } else {
        pages(s, limit, n - 1) + page(s, (n - 1) * limit, limit)
    }
}

proof fn lemma_page_step(n: int, limit: int)
    requires
        n >= 1,
        limit > 0,
    ensures
        (n - 1) * limit + limit == n * limit,
        (n - 1) * limit >= 0,
{
    assert((n - 1) * limit + limit == n * limit) by (nonlinear_arith);
    assert((n - 1) * limit >= 0) by (nonlinear_arith)
        requires
            n >= 1,
            limit > 0,
    ;
}

proof fn lemma_pages_prefix<A>(s: Seq<A>, limit: int, n: int)
    requires
        limit > 0,
        n >= 0,
    ensures
        pages(s, limit, n) == s.take(if n * limit < s.len() {
            n * limit
        } else {
            s.len() as int
        }),
    decreases n,
{
    if n == 0 {
        assert(s.take(0) =~= Seq::<A>::empty());
    } else {
        lemma_pages_prefix(s, limit, n - 1);
        lemma_page_step(n, limit);
        let lo = (n - 1) * limit;
        let hi = n * limit;
        assert(lo + limit == hi && lo >= 0);
        let a = if lo < s.len() {
            lo
        } else {
            s.len() as int
        };
        let b = if hi < s.len() {
            hi
        } else {
            s.len() as int
        };
        assert(pages(s, limit, n) == pages(s, limit, n - 1) + page(s, lo, limit));
        assert(page(s, lo, limit) == s.subrange(a, b));
        assert(s.take(a) + s.subrange(a, b) =~= s.take(b));
    }
}

/// A page holds at most `limit` hits; and the pages at offsets 0, `limit`,
/// 2 `limit`, ... put one after another give back the whole ranked list, with no
/// gap and no repeat, once they reach its end.
pub proof fn lemma_pagination<A>(s: Seq<A>, offset: int, limit: int, n: int)
    requires
        offset >= 0,
        limit >= 0,
        n >= 0,
    ensures
        page(s, offset, limit).len() <= limit,
        limit > 0 && n * limit >= s.len() ==> pages(s, limit, n) == s,
{
    if limit > 0 {
        lemma_pages_prefix(s, limit, n);
        assert(s.take(s.len() as int) =~= s);
    }
}

/// The identities whose metadata a search needs: none where neither backend found
/// anything, so that no metadata is fetched.
pub fn metadata_request(fts: &Vec<FtsHit>, sem: &Vec<SemanticHit>) -> (r: Option<Vec<EmailId>>)
    ensures
        match r {
            Some(ids) => texts(ids@) == union_model(fts@, sem@) && ids@.len() > 0,
            None => union_model(fts@, sem@).len() == 0,
        },
{
    let ids = union_ids(fts, sem);
    if ids.len() == 0 {
        None
    } else {
        Some(ids)
    }
}

/// A lexical hit with a positive rank, metadata and a blend at the threshold makes
/// the ranked list non-empty, whatever the query text was: a search on filters
/// alone still finds what they match.
pub proof fn lemma_filters_alone_match(
    fts: Seq<FtsHit>,
    sem: Seq<SemanticHit>,
    metas: Seq<EmailMetadata>,
    st: SearchSettings,
    id: Seq<char>,
)
    requires
        lexical_ids(fts).contains(id),
        find_metadata(metas, id) is Some,
        lexical_score(fts, id) > 0,
        blend(lexical_score(fts, id), semantic_score(sem, id), st) >= st.min_score,
    ensures
        merged(fts, sem, metas, st).len() > 0,
{
    lemma_merged(fts, sem, metas, st);
    let m = merged(fts, sem, metas, st);
    if m.len() == 0 {
        assert(count_id(m, id) == 0);
    }
}

} // verus!
