//! The memo record, the requests that create and change it, and the
//! search request and result types.
use vstd::prelude::*;
use crate::time::{CalendarDate, Timestamp};

verus! {

/// The canonical text of a UUID, in lower-case hyphenated form.
pub uninterp spec fn uuid_text(v: u128) -> Seq<char>;

/// The UUID that a text names.
pub uninterp spec fn uuid_value(s: Seq<char>) -> Option<u128>;

/// Relies on uuid's `Uuid::from_u128` and its `Display`: the hyphenated
/// form, which `Uuid::parse_str` reads back as the same UUID.
#[verifier::external_body]
fn format_uuid(v: u128) -> (r: String)
    ensures
        r@ == uuid_text(v),
        uuid_value(r@) == Some(v),
{
    uuid::Uuid::from_u128(v).to_string()
}

/// Relies on uuid's `Uuid::parse_str`, read back through `Uuid::as_u128`.
#[verifier::external_body]
fn parse_uuid(s: &str) -> (r: Option<u128>)
    ensures
        r == uuid_value(s@),
{
    uuid::Uuid::parse_str(s).ok().map(|u| u.as_u128())
}

/// A memo's identity: a UUID, held as its 128 bits.
#[derive(Clone, Copy, Debug, PartialEq, Eq, Structural)]
pub struct MemoId {
    pub value: u128,
}

impl MemoId {
    pub fn from_u128(value: u128) -> (r: MemoId)
        ensures
            r.value == value,
    {
        MemoId { value }
    }

    /// Reads a UUID text; `None` where it is not one.
    pub fn parse(s: &str) -> (r: Option<MemoId>)
        ensures
            r == (match uuid_value(s@) {
                Some(v) => Some(MemoId { value: v }),
                None => None::<MemoId>,
            }),
    {
        match parse_uuid(s) {
            Some(v) => Some(MemoId { value: v }),
            None => None,
        }
    }

    /// The UUID text of the id, which is also the key of its point.
    pub fn to_text(&self) -> (r: String)
        ensures
            r@ == uuid_text(self.value),
            uuid_value(r@) == Some(self.value),
    {
        format_uuid(self.value)
    }
}

#[derive(Clone, Copy, Debug, PartialEq, Eq, Structural)]
pub enum MemoType {
    Flash,
    Permanent,
}

pub open spec fn strings_view(v: Seq<String>) -> Seq<Seq<char>> {
    v.map_values(|s: String| s@)
}

pub struct MemoView {
    pub id: MemoId,
    pub content: Seq<char>,
    pub memo_type: MemoType,
    pub from: Option<CalendarDate>,
    pub until: Option<CalendarDate>,
    pub tags: Seq<Seq<char>>,
    pub date_added: Timestamp,
    pub access_count: u32,
    pub last_accessed: Timestamp,
    pub completed: bool,
}

pub open spec fn date_wf(d: Option<CalendarDate>) -> bool {
    match d {
        Some(d) => d.wf(),
        None => true,
    }
}

impl MemoView {
    pub open spec fn wf(self) -> bool {
        date_wf(self.from) && date_wf(self.until) && self.date_added.wf()
            && self.last_accessed.wf()
    }
}

#[derive(Debug)]
pub struct Memo {
    pub id: MemoId,
    pub content: String,
    pub memo_type: MemoType,
    pub from: Option<CalendarDate>,
    pub until: Option<CalendarDate>,
    pub tags: Vec<String>,
    pub date_added: Timestamp,
    pub access_count: u32,
    pub last_accessed: Timestamp,
    pub completed: bool,
}

impl View for Memo {
    type V = MemoView;

    open spec fn view(&self) -> MemoView {
        MemoView {
            id: self.id,
            content: self.content@,
            memo_type: self.memo_type,
            from: self.from,
            until: self.until,
            tags: strings_view(self.tags@),
            date_added: self.date_added,
            access_count: self.access_count,
            last_accessed: self.last_accessed,
            completed: self.completed,
        }
    }
}

impl Memo {
    pub open spec fn wf(&self) -> bool {
        self@.wf()
    }

    /// A new memo made from a create request: not completed, never read,
    /// added and last touched at `now`.
    pub fn from_request(req: CreateMemoRequest, id: MemoId, now: Timestamp) -> (r: Memo)
        ensures
            r@ == (MemoView {
                id,
                content: req.content@,
                memo_type: req.memo_type,
                from: req.from,
                until: req.until,
                tags: strings_view(req.tags@),
                date_added: now,
                access_count: 0,
                last_accessed: now,
                completed: false,
            }),
    {
        Memo {
            id,
            content: req.content,
            memo_type: req.memo_type,
            from: req.from,
            until: req.until,
            tags: req.tags,
            date_added: now,
            access_count: 0,
            last_accessed: now,
            completed: false,
        }
    }

    /// Applies an update request at `now`: each field that the request
    /// carries replaces the memo's, and `last_accessed` becomes `now`.
    /// The flag returned tells whether the content changed, so that the
    /// caller knows a new embedding is owed.
    pub fn apply_update(self, req: UpdateMemoRequest, now: Timestamp) -> (r: (Memo, bool))
        ensures
            r.1 == (match req.content {
                Some(c) => c@ != self.content@,
                None => false,
            }),
            r.0@ == (MemoView {
                id: self.id,
                content: match req.content {
                    Some(c) => c@,
                    None => self.content@,
                },
                memo_type: match req.memo_type {
                    Some(t) => t,
                    None => self.memo_type,
                },
                from: match req.from {
                    Some(d) => Some(d),
                    None => self.from,
                },
                until: match req.until {
                    Some(d) => Some(d),
                    None => self.until,
                },
                tags: match req.tags {
                    Some(t) => strings_view(t@),
                    None => strings_view(self.tags@),
                },
                date_added: self.date_added,
                access_count: self.access_count,
                last_accessed: now,
                completed: match req.completed {
                    Some(c) => c,
                    None => self.completed,
                },
            }),
    {
        let mut memo = self;
        let content_changed = match &req.content {
            Some(c) => !(*c == memo.content),
            None => false,
        };
        match req.content {
            Some(c) => {
                memo.content = c;
            },
            None => {},
        }
        match req.memo_type {
            Some(t) => {
                memo.memo_type = t;
            },
            None => {},
        }
        match req.from {
            Some(d) => {
                memo.from = Some(d);
            },
            None => {},
        }
        match req.until {
            Some(d) => {
                memo.until = Some(d);
            },
            None => {},
        }
        match req.tags {
            Some(t) => {
                memo.tags = t;
            },
            None => {},
        }
        match req.completed {
            Some(c) => {
                memo.completed = c;
            },
            None => {},
        }
        memo.last_accessed = now;
        (memo, content_changed)
    }
}

#[derive(Debug)]
pub struct CreateMemoRequest {
    pub content: String,
    pub memo_type: MemoType,
    pub from: Option<CalendarDate>,
    pub until: Option<CalendarDate>,
    pub tags: Vec<String>,
}

#[derive(Debug)]
pub struct UpdateMemoRequest {
    pub content: Option<String>,
    pub memo_type: Option<MemoType>,
    pub from: Option<CalendarDate>,
    pub until: Option<CalendarDate>,
    pub tags: Option<Vec<String>>,
    pub completed: Option<bool>,
}

/// What a client sees of a memo.
#[derive(Debug)]
pub struct MemoResponse {
    pub id: MemoId,
    pub content: String,
    pub memo_type: MemoType,
    pub from: Option<CalendarDate>,
    pub until: Option<CalendarDate>,
    pub tags: Vec<String>,
    pub date_added: Timestamp,
}

impl MemoResponse {
    pub fn from_memo(memo: Memo) -> (r: MemoResponse)
        ensures
            r.id == memo.id,
            r.content@ == memo.content@,
            r.memo_type == memo.memo_type,
            r.from == memo.from,
            r.until == memo.until,
            strings_view(r.tags@) == strings_view(memo.tags@),
            r.date_added == memo.date_added,
    {
        MemoResponse {
            id: memo.id,
            content: memo.content,
            memo_type: memo.memo_type,
            from: memo.from,
            until: memo.until,
            tags: memo.tags,
            date_added: memo.date_added,
        }
    }
}

/// The number of results a search asks for when the request names none.
pub fn default_limit() -> (r: u32)
    ensures
        r == 20,
{
    20
}

#[derive(Debug)]
pub struct SearchFilters {
    pub from_gte: Option<CalendarDate>,
    pub until_lte: Option<CalendarDate>,
    pub tags: Vec<String>,
    pub memo_type: Option<MemoType>,
}

impl SearchFilters {
    /// The filter set that matches every memo.
    pub fn empty() -> (r: SearchFilters)
        ensures
            r.from_gte.is_none(),
            r.until_lte.is_none(),
            r.tags@.len() == 0,
            r.memo_type.is_none(),
    {
        SearchFilters { from_gte: None, until_lte: None, tags: Vec::new(), memo_type: None }
    }
}

#[derive(Debug)]
pub struct SearchRequest {
    pub query: String,
    pub filters: SearchFilters,
    pub limit: u32,
}

/// One search hit as a client sees it; `score` is the display score in
/// millionths, from 0 to 1000000.
#[derive(Debug)]
pub struct SearchResult {
    pub id: MemoId,
    pub content: String,
    pub score: u32,
    pub tags: Vec<String>,
    pub from: Option<CalendarDate>,
    pub date_added: Timestamp,
}

#[derive(Debug)]
pub struct SearchResponse {
    pub results: Vec<SearchResult>,
    pub total: usize,
}

impl SearchResponse {
    pub fn from_results(results: Vec<SearchResult>) -> (r: SearchResponse)
        ensures
            r.results@ == results@,
            r.total == results@.len(),
    {
        let total = results.len();
        SearchResponse { results, total }
    }
}

} // verus!
