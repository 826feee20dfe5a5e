//! The codec between a memo and the untyped key/value payload that its
//! point carries in the vector database.
//!
//! Besides the readable `from` and `until` dates the payload holds
//! `from_ts` (the first second of `from`) and `until_ts` (the last second
//! of `until`) as Unix seconds: the search filters compare those.
//!
//! Decoding is lenient on `from` and `until` alone: a missing key, a null
//! or a value of any type but text reads as an absent date, so that later
//! writers may store other forms there.
use vstd::prelude::*;
use vstd::string::*;
use crate::error::AppError;
use crate::memo::{Memo, MemoId, MemoType, MemoView, strings_view};
use crate::time::{
    CalendarDate,
    Timestamp,
    day_of,
    instant_of,
    iso_date_text,
    rfc3339_text,
};

verus! {

/// An element of a list value.
#[derive(Debug)]
pub enum ListItem {
    Text(String),
    Other,
}

/// A payload value; `Other` stands for the kinds that the codec never
/// reads (floating-point numbers and nested objects).
#[derive(Debug)]
pub enum PayloadValue {
    Null,
    Bool(bool),
    Integer(i64),
    Text(String),
    List(Vec<ListItem>),
    Other,
}

pub enum ValueModel {
    Null,
    Bool(bool),
    Integer(int),
    Text(Seq<char>),
    List(Seq<Option<Seq<char>>>),
    Other,
}

pub open spec fn item_model(i: ListItem) -> Option<Seq<char>> {
    match i {
        ListItem::Text(s) => Some(s@),
        ListItem::Other => None,
    }
}

impl PayloadValue {
    pub open spec fn model(&self) -> ValueModel {
        match self {
            PayloadValue::Null => ValueModel::Null,
            PayloadValue::Bool(b) => ValueModel::Bool(*b),
            PayloadValue::Integer(i) => ValueModel::Integer(*i as int),
            PayloadValue::Text(s) => ValueModel::Text(s@),
            PayloadValue::List(v) => ValueModel::List(v@.map_values(|i: ListItem| item_model(i))),
            PayloadValue::Other => ValueModel::Other,
        }
    }
}

#[derive(Debug)]
pub struct PayloadEntry {
    pub key: String,
    pub value: PayloadValue,
}

/// A point's payload, as key/value entries.
#[derive(Debug)]
pub struct Payload {
    pub entries: Vec<PayloadEntry>,
}

pub type PayloadModel = Seq<(Seq<char>, ValueModel)>;

/// The value of the first entry under `key`.
pub open spec fn lookup(p: PayloadModel, key: Seq<char>) -> Option<ValueModel>
    decreases p.len(),
{
    if p.len() == 0 {
        None
    } else if p[0].0 == key {
        Some(p[0].1)
    } else {
        lookup(p.drop_first(), key)
    }
}

proof fn lemma_lookup_skip(p: PayloadModel, key: Seq<char>, i: int)
    requires
        0 <= i <= p.len(),
        forall|j: int| 0 <= j < i ==> p[j].0 != key,
    ensures
        lookup(p, key) == lookup(p.subrange(i, p.len() as int), key),
    decreases i,
{
    if i > 0 {
        lemma_lookup_skip(p, key, i - 1);
        let q = p.subrange(i - 1, p.len() as int);
        assert(q.drop_first() =~= p.subrange(i, p.len() as int));
        assert(q[0] == p[i - 1]);
    } else {
        assert(p.subrange(0, p.len() as int) =~= p);
    }
}

proof fn lemma_lookup_at(p: PayloadModel, key: Seq<char>, i: int)
    requires
        0 <= i < p.len(),
        p[i].0 == key,
        forall|j: int| 0 <= j < i ==> p[j].0 != key,
    ensures
        lookup(p, key) == Some(p[i].1),
{
    lemma_lookup_skip(p, key, i);
    assert(p.subrange(i, p.len() as int)[0] == p[i]);
}

impl Payload {
    pub open spec fn model(&self) -> PayloadModel {
        self.entries@.map_values(|e: PayloadEntry| (e.key@, e.value.model()))
    }

    /// The value of the first entry under `key`.
    pub fn get(&self, key: &String) -> (r: Option<&PayloadValue>)
        ensures
            match r {
                Some(v) => lookup(self.model(), key@) == Some(v.model()),
                None => lookup(self.model(), key@) == None::<ValueModel>,
            },
    {
        let mut i: usize = 0;
        while i < self.entries.len()
            invariant
                i <= self.entries@.len(),
                forall|j: int| 0 <= j < i ==> self.model()[j].0 != key@,
            decreases self.entries@.len() - i,
        {
            if self.entries[i].key == *key {
                proof {
                    lemma_lookup_skip(self.model(), key@, i as int);
                    let q = self.model().subrange(i as int, self.model().len() as int);
                    assert(q[0] == self.model()[i as int]);
                }
                return Some(&self.entries[i].value);
            }
            i += 1;
        }
        proof {
            lemma_lookup_skip(self.model(), key@, i as int);
        }
        None
    }
}

pub enum DecodeFault {
    MissingField(Seq<char>),
    TypeMismatch(Seq<char>),
    UnknownVariant(Seq<char>),
}

/// Why a payload does not decode: a required key is absent, a key holds a
/// value of the wrong kind, or `type` names no memo type (it carries that
/// text).
#[derive(Debug)]
pub enum DecodeError {
    MissingField(String),
    TypeMismatch(String),
    UnknownVariant(String),
}

impl DecodeError {
    pub open spec fn view(&self) -> DecodeFault {
        match self {
            DecodeError::MissingField(s) => DecodeFault::MissingField(s@),
            DecodeError::TypeMismatch(s) => DecodeFault::TypeMismatch(s@),
            DecodeError::UnknownVariant(s) => DecodeFault::UnknownVariant(s@),
        }
    }

    /// The store error that a decode failure surfaces as.
    pub fn into_app_error(self) -> (r: AppError)
        ensures
            r matches AppError::Qdrant(_),
            r.message_view() == (match self.view() {
                DecodeFault::MissingField(k) => "Missing field: "@ + k,
                DecodeFault::TypeMismatch(k) => "Invalid field: "@ + k,
                DecodeFault::UnknownVariant(t) => "Unknown memo type: "@ + t,
            }),
    {
        match self {
            DecodeError::MissingField(k) => {
                let mut m = String::from_str("Missing field: ");
                m.append(k.as_str());
                AppError::Qdrant(m)
            },
            DecodeError::TypeMismatch(k) => {
                let mut m = String::from_str("Invalid field: ");
                m.append(k.as_str());
                AppError::Qdrant(m)
            },
            DecodeError::UnknownVariant(t) => {
                let mut m = String::from_str("Unknown memo type: ");
                m.append(t.as_str());
                AppError::Qdrant(m)
            },
        }
    }
}

/// A list value whose elements are all the given texts.
pub open spec fn all_text(tags: Seq<Seq<char>>) -> Seq<Option<Seq<char>>> {
    tags.map_values(|t: Seq<char>| Some(t))
}

pub open spec fn type_text(t: MemoType) -> Seq<char> {
    match t {
        MemoType::Flash => "flash"@,
        MemoType::Permanent => "permanent"@,
    }
}

/// The texts of a list, in order, skipping the elements that are not text.
pub open spec fn texts_of(items: Seq<Option<Seq<char>>>) -> Seq<Seq<char>>
    decreases items.len(),
{
    if items.len() == 0 {
        Seq::empty()
    } else {
        let rest = texts_of(items.drop_last());
        match items.last() {
            Some(s) => rest.push(s),
            None => rest,
        }
    }
}

pub open spec fn text_field(p: PayloadModel, key: Seq<char>) -> Result<Seq<char>, DecodeFault> {
    match lookup(p, key) {
        None => Err(DecodeFault::MissingField(key)),
        Some(ValueModel::Text(s)) => Ok(s),
        Some(_) => Err(DecodeFault::TypeMismatch(key)),
    }
}

pub open spec fn text_list_field(p: PayloadModel, key: Seq<char>) -> Result<
    Seq<Seq<char>>,
    DecodeFault,
> {
    match lookup(p, key) {
        None => Err(DecodeFault::MissingField(key)),
        Some(ValueModel::List(items)) => Ok(texts_of(items)),
        Some(_) => Err(DecodeFault::TypeMismatch(key)),
    }
}

pub open spec fn integer_field(p: PayloadModel, key: Seq<char>) -> Result<int, DecodeFault> {
    match lookup(p, key) {
        None => Err(DecodeFault::MissingField(key)),
        Some(ValueModel::Integer(i)) => Ok(i),
        Some(_) => Err(DecodeFault::TypeMismatch(key)),
    }
}

pub open spec fn bool_field(p: PayloadModel, key: Seq<char>) -> Result<bool, DecodeFault> {
    match lookup(p, key) {
        None => Err(DecodeFault::MissingField(key)),
        Some(ValueModel::Bool(b)) => Ok(b),
        Some(_) => Err(DecodeFault::TypeMismatch(key)),
    }
}

/// A text field that holds an RFC 3339 instant.
pub open spec fn timestamp_field(p: PayloadModel, key: Seq<char>) -> Result<Timestamp, DecodeFault> {
    match text_field(p, key) {
        Err(e) => Err(e),
        Ok(s) => match instant_of(s) {
            Some(t) => Ok(t),
            None => Err(DecodeFault::TypeMismatch(key)),
        },
    }
}

/// An integer field that holds a count, taken as its low 32 bits (the
/// `as u32` of the stored 64-bit integer): every integer decodes.
pub open spec fn count_field(p: PayloadModel, key: Seq<char>) -> Result<u32, DecodeFault> {
    match integer_field(p, key) {
        Err(e) => Err(e),
        Ok(i) => Ok(i as u32),
    }
}

pub open spec fn optional_date_field(p: PayloadModel, key: Seq<char>) -> Result<
    Option<CalendarDate>,
    DecodeFault,
> {
    match lookup(p, key) {
        Some(ValueModel::Text(s)) => match day_of(s) {
            Some(d) => Ok(Some(d)),
            None => Err(DecodeFault::TypeMismatch(key)),
        },
        _ => Ok(None),
    }
}

pub open spec fn type_field(p: PayloadModel) -> Result<MemoType, DecodeFault> {
    match text_field(p, "type"@) {
        Err(e) => Err(e),
        Ok(s) => if s == "flash"@ {
            Ok(MemoType::Flash)
        } else if s == "permanent"@ {
            Ok(MemoType::Permanent)
        } else {
            Err(DecodeFault::UnknownVariant(s))
        },
    }
}

/// The memo that a payload decodes to, the fields read in this order:
/// content, type, tags, date_added, access_count, last_accessed,
/// completed, from, until; the first that fails gives the error.
pub open spec fn decoded(id: MemoId, p: PayloadModel) -> Result<MemoView, DecodeFault> {
    match text_field(p, "content"@) {
        Err(e) => Err(e),
        Ok(content) => match type_field(p) {
            Err(e) => Err(e),
            Ok(memo_type) => match text_list_field(p, "tags"@) {
                Err(e) => Err(e),
                Ok(tags) => match timestamp_field(p, "date_added"@) {
                    Err(e) => Err(e),
                    Ok(date_added) => match count_field(p, "access_count"@) {
                        Err(e) => Err(e),
                        Ok(access_count) => match timestamp_field(p, "last_accessed"@) {
                            Err(e) => Err(e),
                            Ok(last_accessed) => match bool_field(p, "completed"@) {
                                Err(e) => Err(e),
                                Ok(completed) => match optional_date_field(p, "from"@) {
                                    Err(e) => Err(e),
                                    Ok(from) => match optional_date_field(p, "until"@) {
                                        Err(e) => Err(e),
                                        Ok(until) => Ok(
                                            MemoView {
                                                id,
                                                content,
                                                memo_type,
                                                from,
                                                until,
                                                tags,
                                                date_added,
                                                access_count,
                                                last_accessed,
                                                completed,
                                            },
                                        ),
                                    },
                                },
                            },
                        },
                    },
                },
            },
        },
    }
}

/// The entries that a memo encodes to, in this order.
pub open spec fn encoded(m: MemoView) -> PayloadModel {
    let base = seq![
        ("content"@, ValueModel::Text(m.content)),
        ("type"@, ValueModel::Text(type_text(m.memo_type))),
        ("tags"@, ValueModel::List(all_text(m.tags))),
        ("date_added"@, ValueModel::Text(rfc3339_text(m.date_added.secs, m.date_added.nanos))),
        ("access_count"@, ValueModel::Integer(m.access_count as int)),
        (
            "last_accessed"@,
            ValueModel::Text(rfc3339_text(m.last_accessed.secs, m.last_accessed.nanos)),
        ),
        ("completed"@, ValueModel::Bool(m.completed)),
    ];
    let with_from = match m.from {
        Some(d) => base + seq![
            ("from"@, ValueModel::Text(iso_date_text(d.epoch_day))),
            ("from_ts"@, ValueModel::Integer(d.start_secs())),
        ],
        None => base,
    };
    match m.until {
        Some(d) => with_from + seq![
            ("until"@, ValueModel::Text(iso_date_text(d.epoch_day))),
            ("until_ts"@, ValueModel::Integer(d.end_secs())),
        ],
        None => with_from,
    }
}

fn key(s: &str) -> (r: String)
    ensures
        r@ == s@,
{
    String::from_str(s)
}

/// Reads a required text field.
pub fn get_string_field(payload: &Payload, name: &str) -> (r: Result<String, DecodeError>)
    ensures
        match r {
            Ok(s) => text_field(payload.model(), name@) == Ok::<Seq<char>, DecodeFault>(s@),
            Err(e) => text_field(payload.model(), name@) == Err::<Seq<char>, DecodeFault>(e.view()),
        },
{
    let k = key(name);
    match payload.get(&k) {
        Some(PayloadValue::Text(s)) => Ok(s.clone()),
        Some(_) => Err(DecodeError::TypeMismatch(k)),
        None => Err(DecodeError::MissingField(k)),
    }
}

/// The texts of a list value, skipping its other elements.
fn texts_in(items: &Vec<ListItem>) -> (r: Vec<String>)
    ensures
        strings_view(r@) == texts_of(items@.map_values(|i: ListItem| item_model(i))),
{
    let ghost model = items@.map_values(|i: ListItem| item_model(i));
    let mut r: Vec<String> = Vec::new();
    let mut i: usize = 0;
    while i < items.len()
        invariant
            i <= items@.len(),
            model == items@.map_values(|i: ListItem| item_model(i)),
            strings_view(r@) == texts_of(model.subrange(0, i as int)),
        decreases items@.len() - i,
    {
        proof {
            assert(model.subrange(0, i + 1).drop_last() =~= model.subrange(0, i as int));
        }
        match &items[i] {
            ListItem::Text(s) => {
                r.push(s.clone());
                assert(strings_view(r@) =~= texts_of(model.subrange(0, i + 1)));
            },
            ListItem::Other => {},
        }
        i += 1;
    }
    assert(model.subrange(0, i as int) =~= model);
    r
}

/// Reads a required list field, keeping its text elements.
pub fn get_string_array_field(payload: &Payload, name: &str) -> (r: Result<Vec<String>, DecodeError>)
    ensures
        match r {
            Ok(v) => text_list_field(payload.model(), name@) == Ok::<Seq<Seq<char>>, DecodeFault>(
                strings_view(v@),
            ),
            Err(e) => text_list_field(payload.model(), name@) == Err::<
                Seq<Seq<char>>,
                DecodeFault,
            >(e.view()),
        },
{
    let k = key(name);
    match payload.get(&k) {
        Some(PayloadValue::List(items)) => Ok(texts_in(items)),
        Some(_) => Err(DecodeError::TypeMismatch(k)),
        None => Err(DecodeError::MissingField(k)),
    }
}

/// Reads a required integer field.
pub fn get_int_field(payload: &Payload, name: &str) -> (r: Result<i64, DecodeError>)
    ensures
        match r {
            Ok(i) => integer_field(payload.model(), name@) == Ok::<int, DecodeFault>(i as int),
            Err(e) => integer_field(payload.model(), name@) == Err::<int, DecodeFault>(e.view()),
        },
{
    let k = key(name);
    match payload.get(&k) {
        Some(PayloadValue::Integer(i)) => Ok(*i),
        Some(_) => Err(DecodeError::TypeMismatch(k)),
        None => Err(DecodeError::MissingField(k)),
    }
}

/// Reads a required boolean field.
pub fn get_bool_field(payload: &Payload, name: &str) -> (r: Result<bool, DecodeError>)
    ensures
        match r {
            Ok(b) => bool_field(payload.model(), name@) == Ok::<bool, DecodeFault>(b),
            Err(e) => bool_field(payload.model(), name@) == Err::<bool, DecodeFault>(e.view()),
        },
{
    let k = key(name);
    match payload.get(&k) {
        Some(PayloadValue::Bool(b)) => Ok(*b),
        Some(_) => Err(DecodeError::TypeMismatch(k)),
        None => Err(DecodeError::MissingField(k)),
    }
}

/// Reads a required RFC 3339 instant.
pub fn get_datetime_field(payload: &Payload, name: &str) -> (r: Result<Timestamp, DecodeError>)
    ensures
        match r {
            Ok(t) => timestamp_field(payload.model(), name@) == Ok::<Timestamp, DecodeFault>(t),
            Err(e) => timestamp_field(payload.model(), name@) == Err::<Timestamp, DecodeFault>(
                e.view(),
            ),
        },
{
    match get_string_field(payload, name) {
        Ok(s) => match Timestamp::parse_rfc3339(s.as_str()) {
            Some(t) => Ok(t),
            None => Err(DecodeError::TypeMismatch(key(name))),
        },
        Err(e) => Err(e),
    }
}

/// Reads a required count: the low 32 bits of an integer.
pub fn get_count_field(payload: &Payload, name: &str) -> (r: Result<u32, DecodeError>)
    ensures
        match r {
            Ok(c) => count_field(payload.model(), name@) == Ok::<u32, DecodeFault>(c),
            Err(e) => count_field(payload.model(), name@) == Err::<u32, DecodeFault>(e.view()),
        },
{
    match get_int_field(payload, name) {
        Ok(i) => Ok(i as u32),
        Err(e) => Err(e),
    }
}

/// Reads an optional `YYYY-MM-DD` date: absent unless the key holds text.
pub fn get_optional_date_field(payload: &Payload, name: &str) -> (r: Result<
    Option<CalendarDate>,
    DecodeError,
>)
    ensures
        match r {
            Ok(d) => optional_date_field(payload.model(), name@) == Ok::<
                Option<CalendarDate>,
                DecodeFault,
            >(d),
            Err(e) => optional_date_field(payload.model(), name@) == Err::<
                Option<CalendarDate>,
                DecodeFault,
            >(e.view()),
        },
{
    let k = key(name);
    match payload.get(&k) {
        Some(PayloadValue::Text(s)) => match CalendarDate::parse_iso(s.as_str()) {
            Some(d) => Ok(Some(d)),
            None => Err(DecodeError::TypeMismatch(k)),
        },
        _ => Ok(None),
    }
}

/// Reads the memo type: `flash` or `permanent`.
pub fn get_type_field(payload: &Payload) -> (r: Result<MemoType, DecodeError>)
    ensures
        match r {
            Ok(t) => type_field(payload.model()) == Ok::<MemoType, DecodeFault>(t),
            Err(e) => type_field(payload.model()) == Err::<MemoType, DecodeFault>(e.view()),
        },
{
    let flash = key("flash");
    let permanent = key("permanent");
    match get_string_field(payload, "type") {
        Ok(s) => if s == flash {
            Ok(MemoType::Flash)
        } else if s == permanent {
            Ok(MemoType::Permanent)
        } else {
            Err(DecodeError::UnknownVariant(s))
        },
        Err(e) => Err(e),
    }
}

/// Decodes a point's payload into the memo with the given id.
pub fn payload_to_memo(id: MemoId, payload: &Payload) -> (r: Result<Memo, DecodeError>)
    ensures
        match r {
            Ok(m) => decoded(id, payload.model()) == Ok::<MemoView, DecodeFault>(m@),
            Err(e) => decoded(id, payload.model()) == Err::<MemoView, DecodeFault>(e.view()),
        },
{
    let content = match get_string_field(payload, "content") {
        Ok(v) => v,
        Err(e) => return Err(e),
    };
    let memo_type = match get_type_field(payload) {
        Ok(v) => v,
        Err(e) => return Err(e),
    };
    let tags = match get_string_array_field(payload, "tags") {
        Ok(v) => v,
        Err(e) => return Err(e),
    };
    let date_added = match get_datetime_field(payload, "date_added") {
        Ok(v) => v,
        Err(e) => return Err(e),
    };
    let access_count = match get_count_field(payload, "access_count") {
        Ok(v) => v,
        Err(e) => return Err(e),
    };
    let last_accessed = match get_datetime_field(payload, "last_accessed") {
        Ok(v) => v,
        Err(e) => return Err(e),
    };
    let completed = match get_bool_field(payload, "completed") {
        Ok(v) => v,
        Err(e) => return Err(e),
    };
    let from = match get_optional_date_field(payload, "from") {
        Ok(v) => v,
        Err(e) => return Err(e),
    };
    let until = match get_optional_date_field(payload, "until") {
        Ok(v) => v,
        Err(e) => return Err(e),
    };
    Ok(
        Memo {
            id,
            content,
            memo_type,
            from,
            until,
            tags,
            date_added,
            access_count,
            last_accessed,
            completed,
        },
    )
}

fn entry(k: &str, value: PayloadValue) -> (r: PayloadEntry)
    ensures
        r.key@ == k@,
        r.value == value,
{
    PayloadEntry { key: key(k), value }
}

/// The list value of a memo's tags.
fn tag_items(tags: &Vec<String>) -> (r: Vec<ListItem>)
    ensures
        r@.map_values(|i: ListItem| item_model(i)) == all_text(strings_view(tags@)),
{
    let mut r: Vec<ListItem> = Vec::new();
    let mut i: usize = 0;
    while i < tags.len()
        invariant
            i <= tags@.len(),
            r@.len() == i,
            forall|j: int| 0 <= j < i ==> item_model(#[trigger] r@[j]) == Some(tags@[j]@),
        decreases tags@.len() - i,
    {
        r.push(ListItem::Text(tags[i].clone()));
        i += 1;
    }
    assert(r@.map_values(|i: ListItem| item_model(i)) =~= all_text(strings_view(tags@)));
    r
}

proof fn lemma_texts_of_all_text(tags: Seq<Seq<char>>)
    ensures
        texts_of(all_text(tags)) == tags,
    decreases tags.len(),
{
    if tags.len() > 0 {
        let items = all_text(tags);
        lemma_texts_of_all_text(tags.drop_last());
        assert(items.drop_last() =~= all_text(tags.drop_last()));
        assert(tags.drop_last().push(tags.last()) =~= tags);
    }
}

/// Where each key of an encoded memo leads.
pub(crate) proof fn lemma_encoded_lookups(m: MemoView)
    ensures
        lookup(encoded(m), "content"@) == Some(ValueModel::Text(m.content)),
        lookup(encoded(m), "type"@) == Some(ValueModel::Text(type_text(m.memo_type))),
        lookup(encoded(m), "tags"@) == Some(ValueModel::List(all_text(m.tags))),
        lookup(encoded(m), "date_added"@) == Some(
            ValueModel::Text(rfc3339_text(m.date_added.secs, m.date_added.nanos)),
        ),
        lookup(encoded(m), "access_count"@) == Some(ValueModel::Integer(m.access_count as int)),
        lookup(encoded(m), "last_accessed"@) == Some(
            ValueModel::Text(rfc3339_text(m.last_accessed.secs, m.last_accessed.nanos)),
        ),
        lookup(encoded(m), "completed"@) == Some(ValueModel::Bool(m.completed)),
        lookup(encoded(m), "from"@) == (match m.from {
            Some(d) => Some(ValueModel::Text(iso_date_text(d.epoch_day))),
            None => None::<ValueModel>,
        }),
        lookup(encoded(m), "from_ts"@) == (match m.from {
            Some(d) => Some(ValueModel::Integer(d.start_secs())),
            None => None::<ValueModel>,
        }),
        lookup(encoded(m), "until"@) == (match m.until {
            Some(d) => Some(ValueModel::Text(iso_date_text(d.epoch_day))),
            None => None::<ValueModel>,
        }),
        lookup(encoded(m), "until_ts"@) == (match m.until {
            Some(d) => Some(ValueModel::Integer(d.end_secs())),
            None => None::<ValueModel>,
        }),
{
    reveal_strlit("content");
    reveal_strlit("type");
    reveal_strlit("tags");
    reveal_strlit("date_added");
    reveal_strlit("access_count");
    reveal_strlit("last_accessed");
    reveal_strlit("completed");
    reveal_strlit("from");
    reveal_strlit("from_ts");
    reveal_strlit("until");
    reveal_strlit("until_ts");
    let p = encoded(m);
    assert("type"@[1] != "tags"@[1]);
    assert("type"@[0] != "from"@[0]);
    assert("tags"@[0] != "from"@[0]);
    assert("content"@[0] != "from_ts"@[0]);
    assert(p[0].0 == "content"@ && p[1].0 == "type"@ && p[2].0 == "tags"@ && p[3].0
        == "date_added"@ && p[4].0 == "access_count"@ && p[5].0 == "last_accessed"@ && p[6].0
        == "completed"@);
    lemma_lookup_at(p, "content"@, 0);
    lemma_lookup_at(p, "type"@, 1);
    lemma_lookup_at(p, "tags"@, 2);
    lemma_lookup_at(p, "date_added"@, 3);
    lemma_lookup_at(p, "access_count"@, 4);
    lemma_lookup_at(p, "last_accessed"@, 5);
    lemma_lookup_at(p, "completed"@, 6);
    if m.from is Some {
        assert(p[7].0 == "from"@ && p[8].0 == "from_ts"@);
        lemma_lookup_at(p, "from"@, 7);
        lemma_lookup_at(p, "from_ts"@, 8);
        if m.until is Some {
            assert(p[9].0 == "until"@ && p[10].0 == "until_ts"@);
            lemma_lookup_at(p, "until"@, 9);
            lemma_lookup_at(p, "until_ts"@, 10);
        } else {
            lemma_lookup_skip(p, "until"@, p.len() as int);
            lemma_lookup_skip(p, "until_ts"@, p.len() as int);
        }
    } else {
        lemma_lookup_skip(p, "from"@, p.len() as int);
        lemma_lookup_skip(p, "from_ts"@, p.len() as int);
        if m.until is Some {
            assert(p[7].0 == "until"@ && p[8].0 == "until_ts"@);
            lemma_lookup_at(p, "until"@, 7);
            lemma_lookup_at(p, "until_ts"@, 8);
        } else {
            lemma_lookup_skip(p, "until"@, p.len() as int);
            lemma_lookup_skip(p, "until_ts"@, p.len() as int);
        }
    }
}

proof fn lemma_decode_encoded(m: MemoView)
    requires
        m.wf(),
        instant_of(rfc3339_text(m.date_added.secs, m.date_added.nanos)) == Some(m.date_added),
        instant_of(rfc3339_text(m.last_accessed.secs, m.last_accessed.nanos)) == Some(
            m.last_accessed,
        ),
        m.from is Some ==> day_of(iso_date_text(m.from->0.epoch_day)) == m.from,
        m.until is Some ==> day_of(iso_date_text(m.until->0.epoch_day)) == m.until,
    ensures
        decoded(m.id, encoded(m)) == Ok::<MemoView, DecodeFault>(m),
{
    reveal_strlit("flash");
    reveal_strlit("permanent");
    lemma_texts_of_all_text(m.tags);
    lemma_encoded_lookups(m);
    let p = encoded(m);
    assert(text_field(p, "content"@) == Ok::<Seq<char>, DecodeFault>(m.content));
    assert(text_field(p, "type"@) == Ok::<Seq<char>, DecodeFault>(type_text(m.memo_type)));
    assert("flash"@ != "permanent"@) by {
        assert("flash"@.len() != "permanent"@.len());
    }
    assert(type_field(p) == Ok::<MemoType, DecodeFault>(m.memo_type));
    assert(text_list_field(p, "tags"@) == Ok::<Seq<Seq<char>>, DecodeFault>(m.tags));
    assert(timestamp_field(p, "date_added"@) == Ok::<Timestamp, DecodeFault>(m.date_added));
    assert(count_field(p, "access_count"@) == Ok::<u32, DecodeFault>(m.access_count));
    assert(timestamp_field(p, "last_accessed"@) == Ok::<Timestamp, DecodeFault>(
        m.last_accessed,
    ));
    assert(bool_field(p, "completed"@) == Ok::<bool, DecodeFault>(m.completed));
    assert(optional_date_field(p, "from"@) == Ok::<Option<CalendarDate>, DecodeFault>(m.from));
    assert(optional_date_field(p, "until"@) == Ok::<Option<CalendarDate>, DecodeFault>(m.until));
}

/// Encodes a memo as the payload of its point. Decoding the result with
/// the memo's id gives the memo back.
pub fn memo_to_payload(memo: &Memo) -> (r: Payload)
    requires
        memo.wf(),
    ensures
        r.model() == encoded(memo@),
        decoded(memo.id, r.model()) == Ok::<MemoView, DecodeFault>(memo@),
{
    let type_str = match memo.memo_type {
        MemoType::Flash => "flash",
        MemoType::Permanent => "permanent",
    };
    let date_added = memo.date_added.to_rfc3339();
    let last_accessed = memo.last_accessed.to_rfc3339();
    let mut entries: Vec<PayloadEntry> = Vec::new();
    entries.push(entry("content", PayloadValue::Text(memo.content.clone())));
    entries.push(entry("type", PayloadValue::Text(key(type_str))));
    entries.push(entry("tags", PayloadValue::List(tag_items(&memo.tags))));
    entries.push(entry("date_added", PayloadValue::Text(date_added)));
    entries.push(entry("access_count", PayloadValue::Integer(memo.access_count as i64)));
    entries.push(entry("last_accessed", PayloadValue::Text(last_accessed)));
    entries.push(entry("completed", PayloadValue::Bool(memo.completed)));
    let ghost base = entries@;
    match memo.from {
        Some(d) => {
            let t = d.to_iso();
            entries.push(entry("from", PayloadValue::Text(t)));
            entries.push(entry("from_ts", PayloadValue::Integer(d.start_of_day())));
        },
        None => {},
    }
    let ghost with_from = entries@;
    match memo.until {
        Some(d) => {
            let t = d.to_iso();
            entries.push(entry("until", PayloadValue::Text(t)));
            entries.push(entry("until_ts", PayloadValue::Integer(d.end_of_day())));
        },
        None => {},
    }
    let r = Payload { entries };
    assert(r.model() =~= encoded(memo@));
    proof {
        lemma_decode_encoded(memo@);
    }
    r
}

} // verus!
