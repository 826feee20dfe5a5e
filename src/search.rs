//! Similarity search: the database filter that a set of search filters
//! becomes, the rescaling of raw similarity into a display score, and the
//! decoding of hits into results.
//!
//! Scores are integers in millionths: a raw cosine similarity of 0.77 is
//! 770000, and a display score of 1 is 1000000.
use vstd::prelude::*;
use vstd::string::*;
use crate::error::AppError;
use crate::memo::{MemoId, MemoType, MemoView, SearchFilters, SearchResult, strings_view, uuid_value};
use crate::payload::{
    Payload,
    PayloadModel,
    ValueModel,
    all_text,
    encoded,
    get_datetime_field,
    get_optional_date_field,
    get_string_array_field,
    get_string_field,
    lookup,
    optional_date_field,
    text_field,
    text_list_field,
    timestamp_field,
    type_text,
};
use crate::time::{CalendarDate, Timestamp};

verus! {

/// Raw similarity below which every hit shows a score of zero.
pub const BASELINE: i64 = 770000;

/// One whole, in millionths.
pub const ONE: i64 = 1000000;

/// A condition on a payload field.
#[derive(Debug)]
pub enum Condition {
    /// The field is this text, or is a list that holds it.
    Matches { key: String, value: String },
    /// The field is an integer within the bounds that are given.
    Range { key: String, gte: Option<i64>, lte: Option<i64> },
}

pub enum ConditionModel {
    Matches(Seq<char>, Seq<char>),
    Range(Seq<char>, Option<int>, Option<int>),
}

impl Condition {
    pub open spec fn model(&self) -> ConditionModel {
        match self {
            Condition::Matches { key, value } => ConditionModel::Matches(key@, value@),
            Condition::Range { key, gte, lte } => ConditionModel::Range(
                key@,
                match gte {
                    Some(g) => Some(*g as int),
                    None => None,
                },
                match lte {
                    Some(l) => Some(*l as int),
                    None => None,
                },
            ),
        }
    }
}

/// A conjunction: a point passes when it meets every condition.
#[derive(Debug)]
pub struct Filter {
    pub must: Vec<Condition>,
}

impl Filter {
    pub open spec fn model(&self) -> Seq<ConditionModel> {
        self.must@.map_values(|c: Condition| c.model())
    }
}

/// How the database evaluates one condition on a payload.
pub open spec fn condition_holds(p: PayloadModel, c: ConditionModel) -> bool {
    match c {
        ConditionModel::Matches(k, v) => match lookup(p, k) {
            Some(ValueModel::Text(s)) => s == v,
            Some(ValueModel::List(items)) => items.contains(Some(v)),
            _ => false,
        },
        ConditionModel::Range(k, gte, lte) => match lookup(p, k) {
            Some(ValueModel::Integer(i)) => (match gte {
                Some(g) => g <= i,
                None => true,
            }) && (match lte {
                Some(l) => i <= l,
                None => true,
            }),
            _ => false,
        },
    }
}

pub open spec fn admits(conds: Seq<ConditionModel>, p: PayloadModel) -> bool {
    forall|i: int| 0 <= i < conds.len() ==> condition_holds(p, #[trigger] conds[i])
}

pub open spec fn filters_wf(f: &SearchFilters) -> bool {
    (f.from_gte matches Some(d) ==> d.wf()) && (f.until_lte matches Some(d) ==> d.wf())
}

pub open spec fn type_conditions(f: &SearchFilters) -> Seq<ConditionModel> {
    match f.memo_type {
        Some(t) => seq![ConditionModel::Matches("type"@, type_text(t))],
        None => Seq::empty(),
    }
}

pub open spec fn from_conditions(f: &SearchFilters) -> Seq<ConditionModel> {
    match f.from_gte {
        Some(d) => seq![ConditionModel::Range("from_ts"@, Some(d.start_secs()), None)],
        None => Seq::empty(),
    }
}

pub open spec fn until_conditions(f: &SearchFilters) -> Seq<ConditionModel> {
    match f.until_lte {
        Some(d) => seq![ConditionModel::Range("until_ts"@, None, Some(d.end_secs()))],
        None => Seq::empty(),
    }
}

pub open spec fn tag_conditions(f: &SearchFilters) -> Seq<ConditionModel> {
    strings_view(f.tags@).map_values(|t: Seq<char>| ConditionModel::Matches("tags"@, t))
}

/// The conditions that a set of filters asks for, in this order: the
/// memo type, the lower date bound, the upper date bound, then one per tag.
pub open spec fn filter_conditions(f: &SearchFilters) -> Seq<ConditionModel> {
    type_conditions(f) + from_conditions(f) + until_conditions(f) + tag_conditions(f)
}

/// Whether a memo meets the filters, read off the memo itself.
pub open spec fn memo_matches(f: &SearchFilters, m: MemoView) -> bool {
    &&& (f.memo_type matches Some(t) ==> m.memo_type == t)
    &&& (f.from_gte matches Some(d) ==> (m.from matches Some(e) && d.epoch_day <= e.epoch_day))
    &&& (f.until_lte matches Some(d) ==> (m.until matches Some(e) && e.epoch_day
        <= d.epoch_day))
    &&& (forall|i: int| 0 <= i < f.tags@.len() ==> m.tags.contains(#[trigger] f.tags@[i]@))
}

fn text(s: &str) -> (r: String)
    ensures
        r@ == s@,
{
    String::from_str(s)
}

/// The filter for a set of search filters; `None` when they set nothing,
/// which matches every point.
pub fn build_filter(filters: &SearchFilters) -> (r: Option<Filter>)
    requires
        filters_wf(filters),
    ensures
        match r {
            Some(f) => f.model() == filter_conditions(filters) && f.model().len() > 0,
            None => filter_conditions(filters).len() == 0,
        },
{
    let mut conditions: Vec<Condition> = Vec::new();
    match filters.memo_type {
        Some(t) => {
            let type_str = match t {
                MemoType::Flash => "flash",
                MemoType::Permanent => "permanent",
            };
            conditions.push(Condition::Matches { key: text("type"), value: text(type_str) });
        },
        None => {},
    }
    match filters.from_gte {
        Some(d) => {
            conditions.push(
                Condition::Range { key: text("from_ts"), gte: Some(d.start_of_day()), lte: None },
            );
        },
        None => {},
    }
    match filters.until_lte {
        Some(d) => {
            conditions.push(
                Condition::Range { key: text("until_ts"), gte: None, lte: Some(d.end_of_day()) },
            );
        },
        None => {},
    }
    let ghost head = conditions@.map_values(|c: Condition| c.model());
    let ghost n = conditions@.len();
    assert(head =~= type_conditions(filters) + from_conditions(filters) + until_conditions(
        filters,
    ));
    let mut i: usize = 0;
    while i < filters.tags.len()
        invariant
            i <= filters.tags@.len(),
            conditions@.len() == n + i,
            forall|j: int| 0 <= j < n ==> (#[trigger] conditions@[j]).model() == head[j],
            forall|j: int|
                0 <= j < i ==> (#[trigger] conditions@[n + j]).model() == ConditionModel::Matches(
                    "tags"@,
                    filters.tags@[j]@,
                ),
        decreases filters.tags@.len() - i,
    {
        conditions.push(Condition::Matches { key: text("tags"), value: filters.tags[i].clone() });
        i += 1;
    }
    let f = Filter { must: conditions };
    assert forall|j: int| 0 <= j < f.model().len() implies #[trigger] f.model()[j] == (head
        + tag_conditions(filters))[j] by {
        if j >= n {
            assert(f.must@[n + (j - n)].model() == f.model()[j]);
        }
    }
    assert(f.model() =~= head + tag_conditions(filters));
    assert(f.model() =~= filter_conditions(filters));
    if f.must.len() == 0 {
        None
    } else {
        Some(f)
    }
}

/// A memo's encoded payload passes the filter built from a set of search
/// filters exactly when the memo meets them: its type is the one asked
/// for, its `from` is on or after the lower bound, its `until` is on or
/// before the upper bound, and it carries every tag asked for.
pub proof fn lemma_filter_conjunction(f: &SearchFilters, m: MemoView)
    requires
        filters_wf(f),
        m.wf(),
    ensures
        admits(filter_conditions(f), encoded(m)) <==> memo_matches(f, m),
{
    let p = encoded(m);
    let conds = filter_conditions(f);
    reveal_strlit("type");
    reveal_strlit("tags");
    reveal_strlit("from_ts");
    reveal_strlit("until_ts");
    reveal_strlit("content");
    reveal_strlit("date_added");
    reveal_strlit("access_count");
    reveal_strlit("last_accessed");
    reveal_strlit("completed");
    reveal_strlit("from");
    reveal_strlit("until");
    reveal_strlit("flash");
    reveal_strlit("permanent");
    assert("type"@[1] != "tags"@[1]);
    assert("type"@[0] != "from"@[0]);
    assert("tags"@[0] != "from"@[0]);
    assert("content"@[0] != "from_ts"@[0]);
    assert("flash"@ != "permanent"@) by {
        assert("flash"@.len() != "permanent"@.len());
    }
    crate::payload::lemma_encoded_lookups(m);
    let type_val = lookup(p, "type"@);
    let tags_val = lookup(p, "tags"@);
    assert(type_val == Some(ValueModel::Text(type_text(m.memo_type))));
    assert(tags_val == Some(ValueModel::List(all_text(m.tags))));
    let by_type = type_conditions(f);
    let by_from = from_conditions(f);
    let by_until = until_conditions(f);
    let by_tags = tag_conditions(f);
    let k = by_type.len() + by_from.len() + by_until.len();
    assert(conds == by_type + by_from + by_until + by_tags);
    // Each tag condition holds exactly when the memo carries that tag.
    assert forall|i: int| 0 <= i < f.tags@.len() implies condition_holds(
        p,
        #[trigger] by_tags[i],
    ) == m.tags.contains(f.tags@[i]@) by {
        let t = f.tags@[i]@;
        assert(by_tags[i] == ConditionModel::Matches("tags"@, t));
        if m.tags.contains(t) {
            let j = choose|j: int| 0 <= j < m.tags.len() && m.tags[j] == t;
            assert(all_text(m.tags)[j] == Some(t));
        }
        if all_text(m.tags).contains(Some(t)) {
            let j = choose|j: int| 0 <= j < all_text(m.tags).len() && all_text(m.tags)[j] == Some(t);
            assert(m.tags[j] == t);
        }
    }
    // The type condition.
    if f.memo_type is Some {
        assert(conds[0] == by_type[0]);
        assert(condition_holds(p, by_type[0]) == (m.memo_type == f.memo_type->0));
    }
    // The date conditions.
    if f.from_gte is Some {
        let d = f.from_gte->0;
        let c = by_from[0];
        assert(conds[by_type.len() as int] == c);
        if let Some(e) = m.from {
            assert(lookup(p, "from_ts"@) == Some(ValueModel::Integer(e.start_secs())));
            assert((d.start_secs() <= e.start_secs()) == (d.epoch_day <= e.epoch_day)) by (
            nonlinear_arith);
        } else {
            assert(lookup(p, "from_ts"@) == None::<ValueModel>);
        }
    }
    if f.until_lte is Some {
        let d = f.until_lte->0;
        let c = by_until[0];
        assert(conds[(by_type.len() + by_from.len()) as int] == c);
        if let Some(e) = m.until {
            assert(lookup(p, "until_ts"@) == Some(ValueModel::Integer(e.end_secs())));
            assert((e.end_secs() <= d.end_secs()) == (e.epoch_day <= d.epoch_day)) by (
            nonlinear_arith);
        } else {
            assert(lookup(p, "until_ts"@) == None::<ValueModel>);
        }
    }
    if admits(conds, p) {
        assert forall|i: int| 0 <= i < f.tags@.len() implies m.tags.contains(
            #[trigger] f.tags@[i]@,
        ) by {
            assert(conds[k + i] == by_tags[i]);
        }
    }
    if memo_matches(f, m) {
        assert forall|i: int| 0 <= i < conds.len() implies condition_holds(p, #[trigger] conds[i]) by {
            if i >= k {
                assert(conds[i] == by_tags[i - k]);
            }
        }
    }
}

/// The linear part of the rescaling: `(raw - BASELINE) / (ONE - BASELINE)`
/// clamped to `[0, ONE]`, in millionths.
pub open spec fn linear_score(raw: int) -> int {
    if raw <= BASELINE {
        0
    } else if raw >= ONE {
        ONE as int
    } else {
        (raw - BASELINE) * ONE / (ONE - BASELINE)
    }
}

/// `r` is the integer square root of `n`.
pub open spec fn is_isqrt(r: int, n: int) -> bool {
    0 <= r && r * r <= n < (r + 1) * (r + 1)
}

/// Integer square root by bisection.
fn isqrt(n: u64) -> (r: u64)
    requires
        n <= 1000000000000,
    ensures
        is_isqrt(r as int, n as int),
{
    let mut lo: u64 = 0;
    let mut hi: u64 = 1000001;
    assert(1000001 * 1000001 > 1000000000000) by (nonlinear_arith);
    while hi - lo > 1
        invariant
            lo < hi <= 1000001,
            lo * lo <= n,
            n < hi * hi,
        decreases hi - lo,
    {
        let mid = lo + (hi - lo) / 2;
        assert(mid * mid <= 1000001 * 1000001) by (nonlinear_arith)
            requires
                mid <= 1000001,
        ;
        if mid * mid <= n {
            lo = mid;
        } else {
            hi = mid;
        }
    }
    lo
}

/// The display score of a raw similarity, both in millionths: the square
/// root of the clamped linear rescaling. A raw score at or below the
/// baseline shows 0; a raw score of one shows one.
pub fn display_score(raw: i64) -> (r: u32)
    ensures
        is_isqrt(r as int, linear_score(raw as int) * ONE),
        r <= ONE,
        raw <= BASELINE ==> r == 0,
        raw >= ONE ==> r == ONE,
{
    let linear: i64 = if raw <= BASELINE {
        0
    } else if raw >= ONE {
        ONE
    } else {
        assert(0 < (raw - BASELINE) * ONE < 230000 * ONE) by (nonlinear_arith)
            requires
                BASELINE < raw < ONE,
        ;
        let l = (raw - BASELINE) * ONE / (ONE - BASELINE);
        assert(l <= ONE) by (nonlinear_arith)
            requires
                l == (raw - BASELINE) * ONE / (ONE - BASELINE),
                (raw - BASELINE) * ONE < 230000 * ONE,
        ;
        l
    };
    assert(0 <= linear <= ONE);
    assert(raw <= BASELINE ==> linear == 0);
    assert(linear * ONE <= 1000000000000) by (nonlinear_arith)
        requires
            0 <= linear <= ONE,
    ;
    let r = isqrt((linear * ONE) as u64);
    assert(r <= ONE) by (nonlinear_arith)
        requires
            r * r <= linear * ONE,
            linear <= ONE,
            r >= 0,
    ;
    if linear == 0 {
        assert(r == 0) by (nonlinear_arith)
            requires
                r * r <= 0,
                r >= 0,
        ;
    }
    if raw >= ONE {
        assert(r == ONE) by (nonlinear_arith)
            requires
                r * r <= ONE * ONE < (r + 1) * (r + 1),
                r >= 0,
        ;
    }
    r as u32
}

/// A higher raw similarity never shows a lower display score.
pub proof fn lemma_display_score_monotone(s1: int, s2: int, r1: int, r2: int)
    requires
        s1 <= s2,
        is_isqrt(r1, linear_score(s1) * ONE),
        is_isqrt(r2, linear_score(s2) * ONE),
    ensures
        r1 <= r2,
{
    if BASELINE < s1 && s2 < ONE {
        vstd::arithmetic::div_mod::lemma_div_is_ordered(
            (s1 - BASELINE) * ONE,
            (s2 - BASELINE) * ONE,
            (ONE - BASELINE) as int,
        );
    }
    if BASELINE < s1 && s1 < ONE {
        vstd::arithmetic::div_mod::lemma_div_is_ordered(
            (s1 - BASELINE) * ONE,
            (ONE - BASELINE) * ONE,
            (ONE - BASELINE) as int,
        );
        assert((ONE - BASELINE) * ONE / (ONE - BASELINE) == ONE);
    }
    if BASELINE < s2 && s2 < ONE {
        assert((s2 - BASELINE) * ONE >= 0) by (nonlinear_arith)
            requires
                s2 > BASELINE,
        ;
        vstd::arithmetic::div_mod::lemma_div_is_ordered(0, (s2 - BASELINE) * ONE, (ONE - BASELINE) as int);
    }
    let l1 = linear_score(s1) * ONE;
    let l2 = linear_score(s2) * ONE;
    assert(linear_score(s1) <= linear_score(s2));
    assert(l1 <= l2) by (nonlinear_arith)
        requires
            linear_score(s1) <= linear_score(s2),
            l1 == linear_score(s1) * ONE,
            l2 == linear_score(s2) * ONE,
    ;
    if r1 > r2 {
        assert((r2 + 1) * (r2 + 1) <= r1 * r1) by (nonlinear_arith)
            requires
                r1 >= r2 + 1,
                r2 >= 0,
        ;
    }
}

/// The key of a point: a UUID text or a number.
#[derive(Debug)]
pub enum PointKey {
    Uuid(String),
    Num(u64),
}

/// The memo id that a point's key names, if it is a UUID text.
pub open spec fn point_memo_id(id: Option<PointKey>) -> Option<MemoId> {
    match id {
        Some(PointKey::Uuid(s)) => match uuid_value(s@) {
            Some(v) => Some(MemoId { value: v }),
            None => None,
        },
        _ => None,
    }
}

/// Reads the memo id from a point's key.
pub fn extract_uuid_from_point_id(point_id: &Option<PointKey>) -> (r: Result<MemoId, AppError>)
    ensures
        match r {
            Ok(id) => point_memo_id(*point_id) == Some(id),
            Err(e) => point_memo_id(*point_id).is_none() && e is Qdrant,
        },
{
    match point_id {
        Some(PointKey::Uuid(s)) => match MemoId::parse(s.as_str()) {
            Some(id) => Ok(id),
            None => Err(AppError::Qdrant(text("Invalid UUID"))),
        },
        Some(PointKey::Num(_)) => Err(AppError::Qdrant(text("Unexpected numeric ID"))),
        None => Err(AppError::Qdrant(text("Missing point ID"))),
    }
}

/// A point that a similarity search returned, with its raw score in millionths.
#[derive(Debug)]
pub struct ScoredHit {
    pub id: Option<PointKey>,
    pub payload: Payload,
    pub score: i64,
}

pub struct SearchResultView {
    pub id: MemoId,
    pub content: Seq<char>,
    pub score: u32,
    pub tags: Seq<Seq<char>>,
    pub from: Option<CalendarDate>,
    pub date_added: Timestamp,
}

pub open spec fn result_view(r: SearchResult) -> SearchResultView {
    SearchResultView {
        id: r.id,
        content: r.content@,
        score: r.score,
        tags: strings_view(r.tags@),
        from: r.from,
        date_added: r.date_added,
    }
}

/// What a hit shows: its id, content, tags, `from` and `date_added`,
/// with a display score whose square root relation to the raw score
/// `display_score` states; `None` where a field does not decode.
pub open spec fn hit_view(hit: ScoredHit, score: u32) -> Option<SearchResultView> {
    let p = hit.payload.model();
    match (
        point_memo_id(hit.id),
        text_field(p, "content"@),
        text_list_field(p, "tags"@),
        optional_date_field(p, "from"@),
        timestamp_field(p, "date_added"@),
    ) {
        (Some(id), Ok(content), Ok(tags), Ok(from), Ok(date_added)) => Some(
            SearchResultView { id, content, score, tags, from, date_added },
        ),
        _ => None,
    }
}

/// Every field that a result shows decodes.
pub open spec fn hit_decodes(hit: ScoredHit) -> bool {
    hit_view(hit, 0) is Some
}

pub open spec fn shown_score(raw: i64, score: u32) -> bool {
    is_isqrt(score as int, linear_score(raw as int) * ONE)
}

/// Decodes one hit into a search result.
pub fn hit_to_result(hit: &ScoredHit) -> (r: Result<SearchResult, AppError>)
    ensures
        match r {
            Ok(res) => shown_score(hit.score, res.score) && hit_view(*hit, res.score) == Some(
                result_view(res),
            ),
            Err(e) => !hit_decodes(*hit) && e is Qdrant,
        },
{
    let id = match extract_uuid_from_point_id(&hit.id) {
        Ok(id) => id,
        Err(e) => return Err(e),
    };
    let content = match get_string_field(&hit.payload, "content") {
        Ok(v) => v,
        Err(e) => return Err(e.into_app_error()),
    };
    let tags = match get_string_array_field(&hit.payload, "tags") {
        Ok(v) => v,
        Err(e) => return Err(e.into_app_error()),
    };
    let from = match get_optional_date_field(&hit.payload, "from") {
        Ok(v) => v,
        Err(e) => return Err(e.into_app_error()),
    };
    let date_added = match get_datetime_field(&hit.payload, "date_added") {
        Ok(v) => v,
        Err(e) => return Err(e.into_app_error()),
    };
    let score = display_score(hit.score);
    Ok(SearchResult { id, content, score, tags, from, date_added })
}

/// Decodes every hit, in order; a single hit that does not decode fails
/// the whole search.
pub fn collect_search_results(hits: &Vec<ScoredHit>) -> (r: Result<Vec<SearchResult>, AppError>)
    ensures
        match r {
            Ok(v) => v@.len() == hits@.len() && forall|i: int|
                0 <= i < hits@.len() ==> shown_score(hits@[i].score, (#[trigger] v@[i]).score)
                    && hit_view(hits@[i], v@[i].score) == Some(result_view(v@[i])),
            Err(e) => e is Qdrant && exists|i: int|
                0 <= i < hits@.len() && !#[trigger] hit_decodes(hits@[i]),
        },
{
    let mut out: Vec<SearchResult> = Vec::new();
    let mut i: usize = 0;
    while i < hits.len()
        invariant
            i <= hits@.len(),
            out@.len() == i,
            forall|j: int|
                0 <= j < i ==> shown_score(hits@[j].score, (#[trigger] out@[j]).score) && hit_view(
                    hits@[j],
                    out@[j].score,
                ) == Some(result_view(out@[j])),
        decreases hits@.len() - i,
    {
        match hit_to_result(&hits[i]) {
            Ok(res) => out.push(res),
            Err(e) => {
                return Err(e);
            },
        }
        i += 1;
    }
    Ok(out)
}

} // verus!
