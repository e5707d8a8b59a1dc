use crate::json::{JsonValue, is_parsable, json_of, parsable, parse_json};
use crate::error::LookupError;
use vstd::prelude::*;
use vstd::string::StringExecFns;

verus! {

/// One web reference: a phrase and its renderings.
#[derive(Debug)]
pub struct YdWeb {
    pub key: String,
    pub value: Vec<String>,
}

/// A decoded dictionary entry. Parts the service left out are `None` or empty.
#[derive(Debug)]
pub struct YdEntry {
    pub query: Option<String>,
    pub phonetic: Option<String>,
    pub translation: Vec<String>,
    pub explains: Vec<String>,
    pub web: Vec<YdWeb>,
}

/// The answer to a lookup: the body as it came, or the entry decoded from it.
#[derive(Debug)]
pub enum YdResponse {
    Raw(String),
    Decoded(YdEntry),
}

pub ghost struct WebModel {
    pub key: Seq<char>,
    pub value: Seq<Seq<char>>,
}

pub ghost struct EntryModel {
    pub query: Option<Seq<char>>,
    pub phonetic: Option<Seq<char>>,
    pub translation: Seq<Seq<char>>,
    pub explains: Seq<Seq<char>>,
    pub web: Seq<WebModel>,
}

pub ghost enum ResponseModel {
    Raw(Seq<char>),
    Decoded(EntryModel),
}

pub open spec fn texts_view(v: Seq<String>) -> Seq<Seq<char>> {
    v.map_values(|s: String| s@)
}

pub open spec fn text_view(o: Option<String>) -> Option<Seq<char>> {
    match o {
        Some(s) => Some(s@),
        None => None,
    }
}

impl View for YdWeb {
    type V = WebModel;

    open spec fn view(&self) -> WebModel {
        WebModel { key: self.key@, value: texts_view(self.value@) }
    }
}

impl View for YdEntry {
    type V = EntryModel;

    open spec fn view(&self) -> EntryModel {
        EntryModel {
            query: text_view(self.query),
            phonetic: text_view(self.phonetic),
            translation: texts_view(self.translation@),
            explains: texts_view(self.explains@),
            web: self.web@.map_values(|w: YdWeb| w@),
        }
    }
}

impl View for YdResponse {
    type V = ResponseModel;

    open spec fn view(&self) -> ResponseModel {
        match self {
            YdResponse::Raw(s) => ResponseModel::Raw(s@),
            YdResponse::Decoded(e) => ResponseModel::Decoded(e@),
        }
    }
}

/// The value of an object's field, where it is there and not null.
pub open spec fn field(fields: Seq<(String, JsonValue)>, key: Seq<char>) -> Option<JsonValue>
    decreases fields.len(),
{
    if fields.len() == 0 {
        None
    } else if fields[0].0@ == key {
        match fields[0].1 {
            JsonValue::Null => None,
            v => Some(v),
        }
    } else {
        field(fields.drop_first(), key)
    }
}

/// An optional text field: `Some(None)` where it is absent, `None` where it
/// holds something other than a string.
pub open spec fn text_of(v: Option<JsonValue>) -> Option<Option<Seq<char>>> {
    match v {
        None => Some(None),
        Some(JsonValue::Str(s)) => Some(Some(s@)),
        Some(_) => None,
    }
}

pub open spec fn all_strings(a: Seq<JsonValue>) -> bool {
    forall|i: int| 0 <= i < a.len() ==> #[trigger] a[i] is Str
}

/// An optional list of texts: empty where it is absent, `None` where it is
/// not an array of strings.
pub open spec fn texts_of(v: Option<JsonValue>) -> Option<Seq<Seq<char>>> {
    match v {
        None => Some(Seq::empty()),
        Some(JsonValue::Array(a)) => if all_strings(a@) {
            Some(a@.map_values(|x: JsonValue| x->Str_0@))
        } else {
            None
        },
        Some(_) => None,
    }
}

/// A web reference: an object with a string `key` and a list of texts `value`.
pub open spec fn web_item(v: JsonValue) -> Option<WebModel> {
    match v {
        JsonValue::Object(f) => match field(f@, "key"@) {
            Some(JsonValue::Str(k)) => match texts_of(field(f@, "value"@)) {
                Some(vals) => Some(WebModel { key: k@, value: vals }),
                None => None,
            },
            _ => None,
        },
        _ => None,
    }
}

pub open spec fn all_web_items(a: Seq<JsonValue>) -> bool {
    forall|i: int| 0 <= i < a.len() ==> #[trigger] web_item(a[i]) is Some
}

/// An optional list of web references: empty where it is absent.
pub open spec fn web_of(v: Option<JsonValue>) -> Option<Seq<WebModel>> {
    match v {
        None => Some(Seq::empty()),
        Some(JsonValue::Array(a)) => if all_web_items(a@) {
            Some(a@.map_values(|x: JsonValue| web_item(x)->Some_0))
        } else {
            None
        },
        Some(_) => None,
    }
}

/// The `basic` part: a phonetic transcription and explanations.
pub open spec fn basic_of(v: Option<JsonValue>) -> Option<(Option<Seq<char>>, Seq<Seq<char>>)> {
    match v {
        None => Some((None, Seq::empty())),
        Some(JsonValue::Object(b)) => match (
            text_of(field(b@, "phonetic"@)),
            texts_of(field(b@, "explains"@)),
        ) {
            (Some(p), Some(e)) => Some((p, e)),
            _ => None,
        },
        Some(_) => None,
    }
}

/// The entry a JSON document describes; fields it does not know are ignored.
pub open spec fn entry_of(v: JsonValue) -> Option<EntryModel> {
    match v {
        JsonValue::Object(f) => {
            let query = text_of(field(f@, "query"@));
            let translation = texts_of(field(f@, "translation"@));
            let basic = basic_of(field(f@, "basic"@));
            let web = web_of(field(f@, "web"@));
            if query is Some && translation is Some && basic is Some && web is Some {
                Some(
                    EntryModel {
                        query: query->Some_0,
                        phonetic: basic->Some_0.0,
                        translation: translation->Some_0,
                        explains: basic->Some_0.1,
                        web: web->Some_0,
                    },
                )
            } else {
                None
            }
        },
        _ => None,
    }
}

/// The diagnostic for a text the parser is not given.
pub const UNPARSABLE: &'static str = "the text nests too deeply or has an overlong exponent";

/// The diagnostic for JSON that does not describe an entry.
pub const NOT_AN_ENTRY: &'static str = "the document is not a dictionary entry";

/// A decode error with the diagnostic `message` that keeps `text`.
pub open spec fn is_decode_error(r: Result<YdResponse, LookupError>, message: Seq<char>, text: Seq<char>) -> bool {
    r is Err && r->Err_0 is Decode && r->Err_0->message@ == message && r->Err_0->body@ == text
}

/// What decoding `text` gives: the decoded entry, or a decode error that
/// keeps the text and carries the parser's diagnostic, or says why the text
/// was not parsed or not taken as an entry.
pub open spec fn decode_outcome(text: Seq<char>, r: Result<YdResponse, LookupError>) -> bool {
    if !parsable(text) {
        is_decode_error(r, UNPARSABLE@, text)
    } else {
        match json_of(text) {
            Err(d) => is_decode_error(r, d, text),
            Ok(v) => match entry_of(v) {
                Some(m) => r is Ok && r->Ok_0@ == ResponseModel::Decoded(m),
                None => is_decode_error(r, NOT_AN_ENTRY@, text),
            },
        }
    }
}

pub open spec fn owned(v: Option<&JsonValue>) -> Option<JsonValue> {
    match v {
        Some(x) => Some(*x),
        None => None,
    }
}

fn find_field<'a>(fields: &'a Vec<(String, JsonValue)>, key: &String) -> (r: Option<&'a JsonValue>)
    ensures
        owned(r) == field(fields@, key@),
{
    let mut i: usize = 0;
    assert(fields@.subrange(0, fields@.len() as int) =~= fields@);
    while i < fields.len()
        invariant
            i <= fields@.len(),
            field(fields@, key@) == field(fields@.subrange(i as int, fields@.len() as int), key@),
        decreases fields.len() - i,
    {
        let ghost rest = fields@.subrange(i as int, fields@.len() as int);
        assert(rest.drop_first() =~= fields@.subrange(i + 1, fields@.len() as int));
        if fields[i].0 == *key {
            return match &fields[i].1 {
                JsonValue::Null => None,
                v => Some(v),
            };
        }
        i = i + 1;
    }
    None
}

fn text_from(v: Option<&JsonValue>) -> (r: Option<Option<String>>)
    ensures
        text_of(owned(v)) is Some <==> r is Some,
        r is Some ==> text_of(owned(v)) == Some(text_view(r->Some_0)),
{
    match v {
        None => Some(None),
        Some(JsonValue::Str(s)) => Some(Some(s.clone())),
        Some(_) => None,
    }
}


fn texts_from(v: Option<&JsonValue>) -> (r: Option<Vec<String>>)
    ensures
        texts_of(owned(v)) is Some <==> r is Some,
        r is Some ==> texts_of(owned(v)) == Some(texts_view(r->Some_0@)),
{
    match v {
        None => Some(Vec::new()),
        Some(JsonValue::Array(a)) => {
            let mut out: Vec<String> = Vec::new();
            let mut i: usize = 0;
            while i < a.len()
                invariant
                    owned(v) == Some(JsonValue::Array(*a)),
                    i <= a@.len(),
                    out@.len() == i,
                    forall|j: int| 0 <= j < i ==> #[trigger] a@[j] is Str && out@[j]@ == a@[j]->Str_0@,
                decreases a.len() - i,
            {
                match &a[i] {
                    JsonValue::Str(s) => out.push(s.clone()),
                    _ => {
                        assert(!all_strings(a@) && !(a@[i as int] is Str));
                        return None;
                    },
                }
                i = i + 1;
            }
            assert(texts_view(out@) =~= a@.map_values(|x: JsonValue| x->Str_0@));
            Some(out)
        },
        Some(_) => None,
    }
}

fn web_item_from(v: &JsonValue) -> (r: Option<YdWeb>)
    ensures
        web_item(*v) is Some <==> r is Some,
        r is Some ==> web_item(*v) == Some(r->Some_0@),
{
    match v {
        JsonValue::Object(f) => {
            let key = match find_field(f, &String::from_str("key")) {
                Some(JsonValue::Str(k)) => k.clone(),
                _ => return None,
            };
            let value = match texts_from(find_field(f, &String::from_str("value"))) {
                Some(x) => x,
                None => return None,
            };
            Some(YdWeb { key, value })
        },
        _ => None,
    }
}

fn web_from(v: Option<&JsonValue>) -> (r: Option<Vec<YdWeb>>)
    ensures
        web_of(owned(v)) is Some <==> r is Some,
        r is Some ==> web_of(owned(v)) == Some(r->Some_0@.map_values(|w: YdWeb| w@)),
{
    match v {
        None => Some(Vec::new()),
        Some(JsonValue::Array(a)) => {
            let mut out: Vec<YdWeb> = Vec::new();
            let mut i: usize = 0;
            while i < a.len()
                invariant
                    owned(v) == Some(JsonValue::Array(*a)),
                    i <= a@.len(),
                    out@.len() == i,
                    forall|j: int|
                        0 <= j < i ==> #[trigger] web_item(a@[j]) is Some && web_item(a@[j])->Some_0
                            == out@[j]@,
                decreases a.len() - i,
            {
                match web_item_from(&a[i]) {
                    Some(w) => out.push(w),
                    None => {
                        assert(!all_web_items(a@) && web_item(a@[i as int]) is None);
                        return None;
                    },
                }
                i = i + 1;
            }
            assert(out@.map_values(|w: YdWeb| w@) =~= a@.map_values(
                |x: JsonValue| web_item(x)->Some_0,
            ));
            Some(out)
        },
        Some(_) => None,
    }
}

fn basic_from(v: Option<&JsonValue>) -> (r: Option<(Option<String>, Vec<String>)>)
    ensures
        basic_of(owned(v)) is Some <==> r is Some,
        r is Some ==> basic_of(owned(v)) == Some(
            (text_view(r->Some_0.0), texts_view(r->Some_0.1@)),
        ),
{
    match v {
        None => Some((None, Vec::new())),
        Some(JsonValue::Object(b)) => {
            let phonetic = match text_from(find_field(b, &String::from_str("phonetic"))) {
                Some(p) => p,
                None => return None,
            };
            let explains = match texts_from(find_field(b, &String::from_str("explains"))) {
                Some(e) => e,
                None => return None,
            };
            Some((phonetic, explains))
        },
        Some(_) => None,
    }
}

impl YdEntry {
    /// The entry a JSON document describes, or `None` where the document does
    /// not have that shape.
    pub fn from_json(v: &JsonValue) -> (r: Option<YdEntry>)
        ensures
            entry_of(*v) is Some <==> r is Some,
            r is Some ==> entry_of(*v) == Some(r->Some_0@),
    {
        match v {
            JsonValue::Object(f) => {
                let query = match text_from(find_field(f, &String::from_str("query"))) {
                    Some(q) => q,
                    None => return None,
                };
                let translation = match texts_from(
                    find_field(f, &String::from_str("translation")),
                ) {
                    Some(t) => t,
                    None => return None,
                };
                let (phonetic, explains) = match basic_from(
                    find_field(f, &String::from_str("basic")),
                ) {
                    Some(b) => b,
                    None => return None,
                };
                let web = match web_from(find_field(f, &String::from_str("web"))) {
                    Some(w) => w,
                    None => return None,
                };
                Some(YdEntry { query, phonetic, translation, explains, web })
            },
            _ => None,
        }
    }
}

/// How a response is shown: a decoded one by its word, `YdResponse('word')`;
/// a raw one as the text it holds.
pub open spec fn shown(m: ResponseModel) -> Seq<char> {
    match m {
        ResponseModel::Raw(t) => t,
        ResponseModel::Decoded(e) => "YdResponse('"@ + match e.query {
            Some(q) => q,
            None => Seq::empty(),
        } + "')"@,
    }
}

impl YdResponse {
    /// The response as shown to a reader.
    pub fn to_text(&self) -> (r: String)
        ensures
            r@ == shown(self@),
    {
        match self {
            YdResponse::Raw(t) => t.clone(),
            YdResponse::Decoded(e) => {
                let mut s = String::from_str("YdResponse('");
                match &e.query {
                    Some(q) => s.append(q.as_str()),
                    None => {},
                }
                s.append("')");
                s
            },
        }
    }

    /// A response that holds the body as it came.
    pub fn new_raw(text: String) -> (r: YdResponse)
        ensures
            r == YdResponse::Raw(text),
    {
        YdResponse::Raw(text)
    }

    /// The body as it came, for a raw response.
    pub fn raw_result(&self) -> (r: Option<String>)
        ensures
            self is Raw ==> r is Some && r->Some_0@ == self->Raw_0@,
            self is Decoded ==> r is None,
    {
        match self {
            YdResponse::Raw(t) => Some(t.clone()),
            YdResponse::Decoded(_) => None,
        }
    }
}

/// Decodes a service answer held as text.
pub fn decode(text: &str) -> (r: Result<YdResponse, LookupError>)
    ensures
        decode_outcome(text@, r),
{
    if !is_parsable(text) {
        return Err(
            LookupError::Decode {
                message: String::from_str(UNPARSABLE),
                body: String::from_str(text),
            },
        );
    }
    match parse_json(text) {
        Ok(v) => match YdEntry::from_json(&v) {
            Some(e) => Ok(YdResponse::Decoded(e)),
            None => Err(
                LookupError::Decode {
                    message: String::from_str(NOT_AN_ENTRY),
                    body: String::from_str(text),
                },
            ),
        },
        Err(message) => Err(LookupError::Decode { message, body: String::from_str(text) }),
    }
}

/// Decoding is a function of the text: two decodings of one text agree on
/// success, on the entry when they succeed, and on the diagnostic when they
/// fail.
pub proof fn lemma_decode_deterministic(
    text: Seq<char>,
    r1: Result<YdResponse, LookupError>,
    r2: Result<YdResponse, LookupError>,
)
    requires
        decode_outcome(text, r1),
        decode_outcome(text, r2),
    ensures
        r1 is Ok <==> r2 is Ok,
        r1 is Ok ==> r1->Ok_0@ == r2->Ok_0@,
        r1 is Err ==> r1->Err_0 is Decode && r2->Err_0 is Decode && r1->Err_0->message@
            == r2->Err_0->message@ && r1->Err_0->body@ == r2->Err_0->body@,
{
}

} // verus!
