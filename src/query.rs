use crate::error::LookupError;
use vstd::prelude::*;
use vstd::string::{StringExecFns, StrSliceExecFns};
use vstd::utf8::{encode_utf8, decode_utf8};

verus! {

/// The lookup endpoint of the dictionary service.
pub const ENDPOINT: &'static str = "http://fanyi.youdao.com/openapi.do";

/// The application name the service knows this client by.
pub const API: &'static str = "YouDaoCV";

/// The access key that goes with `API`.
pub const API_KEY: &'static str = "659600698";

/// Bytes that `application/x-www-form-urlencoded` serialisation leaves as they are.
pub open spec fn unchanged_byte(b: u8) -> bool {
    b == 42 || b == 45 || b == 46 || (48 <= b <= 57) || (65 <= b <= 90) || b == 95 || (97
        <= b <= 122)
}

/// Upper-case hexadecimal digit of a value below sixteen.
pub open spec fn hex_digit(n: u8) -> char {
    if n < 10 {
        (n + 48) as char
    } else {
        (n + 55) as char
    }
}

/// How one byte is written: itself, `+` for a space, or `%XX`.
pub open spec fn form_encode_byte(b: u8) -> Seq<char> {
    if unchanged_byte(b) {
        seq![b as char]
    } else if b == 32 {
        seq!['+']
    } else {
        seq!['%', hex_digit(b / 16), hex_digit(b % 16)]
    }
}

/// Form-urlencoded serialisation of a byte string.
pub open spec fn form_encode(b: Seq<u8>) -> Seq<char>
    decreases b.len(),
{
    if b.len() == 0 {
        Seq::empty()
    } else {
        form_encode_byte(b[0]) + form_encode(b.drop_first())
    }
}

/// Form-urlencoded serialisation of text, through its UTF-8 bytes.
pub open spec fn encoded(s: Seq<char>) -> Seq<char> {
    form_encode(encode_utf8(s))
}

pub open spec fn is_hex(c: char) -> bool {
    ('0' <= c <= '9') || ('A' <= c <= 'F') || ('a' <= c <= 'f')
}

pub open spec fn hex_value(c: char) -> int {
    if '0' <= c <= '9' {
        c as int - 48
    } else if 'A' <= c <= 'F' {
        c as int - 55
    } else {
        c as int - 87
    }
}

/// Form-urlencoded parsing of a value back to bytes: `+` is a space, `%XX` a byte.
pub open spec fn form_decode(s: Seq<char>) -> Seq<u8>
    decreases s.len(),
{
    if s.len() == 0 {
        Seq::empty()
    } else if s[0] == '+' {
        seq![32u8] + form_decode(s.drop_first())
    } else if s[0] == '%' && s.len() >= 3 && is_hex(s[1]) && is_hex(s[2]) {
        seq![(hex_value(s[1]) * 16 + hex_value(s[2])) as u8] + form_decode(s.subrange(3, s.len() as int))
    } else {
        seq![s[0] as u8] + form_decode(s.drop_first())
    }
}

/// Form-decoding the serialisation of a byte string gives the bytes back.
pub proof fn lemma_form_round_trip(b: Seq<u8>)
    ensures
        form_decode(form_encode(b)) == b,
    decreases b.len(),
{
    if b.len() > 0 {
        let x = b[0];
        let head = form_encode_byte(x);
        let tail = form_encode(b.drop_first());
        let s = head + tail;
        assert(form_encode(b) == s);
        lemma_form_round_trip(b.drop_first());
        if unchanged_byte(x) {
            assert(s.drop_first() =~= tail);
            assert((x as char) as u8 == x);
        } else if x == 32 {
            assert(s.drop_first() =~= tail);
        } else {
            assert(s.subrange(3, s.len() as int) =~= tail);
            assert(hex_value(hex_digit(x / 16)) * 16 + hex_value(hex_digit(x % 16)) == x as int);
        }
        assert(b =~= seq![x] + b.drop_first());
    }
}

/// Form-decoding the serialisation of text, then reading the bytes as UTF-8,
/// gives the text back.
pub proof fn lemma_text_round_trip(s: Seq<char>)
    ensures
        decode_utf8(form_decode(encoded(s))) == s,
{
    lemma_form_round_trip(encode_utf8(s));
    vstd::utf8::encode_utf8_decode_utf8(s);
}


/// Characters that a serialised query may hold and that the URL parser
/// leaves as they are in a query.
pub open spec fn query_safe_char(c: char) -> bool {
    ('0' <= c <= '9') || ('A' <= c <= 'Z') || ('a' <= c <= 'z') || c == '*' || c == '-' || c
        == '.' || c == '_' || c == '+' || c == '%' || c == '=' || c == '&'
}

pub open spec fn query_safe(q: Seq<char>) -> bool {
    forall|i: int| 0 <= i < q.len() ==> query_safe_char(#[trigger] q[i])
}

/// One `name=value` pair, both serialised.
pub open spec fn pair_text(name: Seq<char>, value: Seq<char>) -> Seq<char> {
    encoded(name) + seq!['='] + encoded(value)
}

/// Pairs serialised and joined by `&`.
pub open spec fn pairs_text(ps: Seq<(Seq<char>, Seq<char>)>) -> Seq<char>
    decreases ps.len(),
{
    if ps.len() == 0 {
        Seq::empty()
    } else if ps.len() == 1 {
        pair_text(ps[0].0, ps[0].1)
    } else {
        pairs_text(ps.drop_last()) + seq!['&'] + pair_text(ps.last().0, ps.last().1)
    }
}

pub open spec fn pairs_view(v: Seq<(String, String)>) -> Seq<(Seq<char>, Seq<char>)> {
    v.map_values(|p: (String, String)| (p.0@, p.1@))
}

/// Relies on url::form_urlencoded::Serializer (append_pair through
/// extend_pairs): each pair is written as its serialised name, `=`, its
/// serialised value (byte_serialize of the UTF-8 bytes), pairs joined by `&`.
#[verifier::external_body]
fn serialize_pairs(pairs: &Vec<(String, String)>) -> (r: String)
    ensures
        r@ == pairs_text(pairs_view(pairs@)),
{
    url::form_urlencoded::Serializer::new(String::new()).extend_pairs(pairs.iter()).finish()
}

/// What `url::Url::parse` makes of a text: the serialised URL, or `None` where
/// the text is no URL.
pub uninterp spec fn url_serialization(s: Seq<char>) -> Option<Seq<char>>;

/// A serialised URL up to its query or fragment.
pub open spec fn before_query(s: Seq<char>) -> Seq<char>
    decreases s.len(),
{
    if s.len() == 0 {
        s
    } else if s[0] == '?' || s[0] == '#' {
        Seq::empty()
    } else {
        seq![s[0]] + before_query(s.drop_first())
    }
}

/// A serialised URL's fragment with its `#`, or nothing.
pub open spec fn fragment(s: Seq<char>) -> Seq<char>
    decreases s.len(),
{
    if s.len() == 0 {
        s
    } else if s[0] == '#' {
        s
    } else {
        fragment(s.drop_first())
    }
}

/// A serialised URL whose query, if any, is replaced by `q`.
pub open spec fn with_query(s: Seq<char>, q: Seq<char>) -> Seq<char> {
    before_query(s) + seq!['?'] + q + fragment(s)
}

/// Longest endpoint and query handed to the URL parser, which keeps offsets
/// into a URL as `u32`.
pub const MAX_URL_LEN: usize = 16777216;

/// Relies on url::Url::parse, Url::set_query and Url::as_str: set_query cuts
/// the serialisation at the query or fragment, writes `?` and the query, which
/// it keeps as it is where it holds only characters `query_safe` allows, and
/// puts the fragment back.
#[verifier::external_body]
fn url_with_query(endpoint: &str, query: &str) -> (r: Result<String, url::ParseError>)
    requires
        query_safe(query@),
        endpoint@.len() <= MAX_URL_LEN,
        query@.len() <= MAX_URL_LEN,
    ensures
        r is Ok <==> url_serialization(endpoint@) is Some,
        r is Ok ==> r->Ok_0@ == with_query(url_serialization(endpoint@)->Some_0, query@),
{
    let mut u = url::Url::parse(endpoint)?;
    u.set_query(Some(query));
    Ok(String::from(u.as_str()))
}

#[verifier::external_type_specification]
#[verifier::external_body]
pub struct ExParseError(url::ParseError);

/// The pairs a lookup of `word` sends, in order.
pub open spec fn request_pairs(keyfrom: Seq<char>, key: Seq<char>, word: Seq<char>) -> Seq<(Seq<char>, Seq<char>)> {
    seq![
        ("keyfrom"@, keyfrom),
        ("key"@, key),
        ("type"@, "data"@),
        ("doctype"@, "json"@),
        ("version"@, "1.1"@),
        ("q"@, word),
    ]
}

/// The request URL for `word`, or `None` where the endpoint is no URL or
/// the endpoint or query is too long for one.
pub open spec fn request_url(endpoint: Seq<char>, keyfrom: Seq<char>, key: Seq<char>, word: Seq<char>) -> Option<Seq<char>> {
    let q = pairs_text(request_pairs(keyfrom, key, word));
    if endpoint.len() > MAX_URL_LEN || q.len() > MAX_URL_LEN {
        None
    } else {
        match url_serialization(endpoint) {
            Some(s) => Some(with_query(s, q)),
            None => None,
        }
    }
}

/// Builds lookup URLs from an endpoint and the client's identity.
#[derive(Debug)]
pub struct QueryBuilder {
    pub endpoint: String,
    pub keyfrom: String,
    pub key: String,
}

impl QueryBuilder {
    pub open spec fn url_for(&self, word: Seq<char>) -> Option<Seq<char>> {
        request_url(self.endpoint@, self.keyfrom@, self.key@, word)
    }

    /// The service's own endpoint and this client's identity.
    pub fn new() -> (r: QueryBuilder)
        ensures
            r.endpoint@ == ENDPOINT@,
            r.keyfrom@ == API@,
            r.key@ == API_KEY@,
    {
        QueryBuilder {
            endpoint: String::from_str(ENDPOINT),
            keyfrom: String::from_str(API),
            key: String::from_str(API_KEY),
        }
    }

    /// Another endpoint or identity, as for a test double of the service.
    pub fn with_identity(endpoint: &str, keyfrom: &str, key: &str) -> (r: QueryBuilder)
        ensures
            r.endpoint@ == endpoint@,
            r.keyfrom@ == keyfrom@,
            r.key@ == key@,
    {
        QueryBuilder {
            endpoint: String::from_str(endpoint),
            keyfrom: String::from_str(keyfrom),
            key: String::from_str(key),
        }
    }

    /// The URL that looks `word` up: the endpoint with its query, if any,
    /// replaced by the lookup's pairs, and its fragment kept.
    pub fn build(&self, word: &str) -> (r: Result<String, LookupError>)
        ensures
            self.url_for(word@) is Some ==> r is Ok && r->Ok_0@ == self.url_for(word@)->Some_0,
            self.url_for(word@) is None ==> r is Err && r->Err_0 is UrlConstruction,
    {
        let pairs: Vec<(String, String)> = vec![
            (String::from_str("keyfrom"), self.keyfrom.clone()),
            (String::from_str("key"), self.key.clone()),
            (String::from_str("type"), String::from_str("data")),
            (String::from_str("doctype"), String::from_str("json")),
            (String::from_str("version"), String::from_str("1.1")),
            (String::from_str("q"), String::from_str(word)),
        ];
        assert(pairs_view(pairs@) =~= request_pairs(self.keyfrom@, self.key@, word@));
        let query = serialize_pairs(&pairs);
        if self.endpoint.as_str().unicode_len() > MAX_URL_LEN || query.as_str().unicode_len()
            > MAX_URL_LEN {
            return Err(LookupError::UrlConstruction);
        }
        proof {
            lemma_pairs_safe(pairs_view(pairs@));
        }
        match url_with_query(self.endpoint.as_str(), query.as_str()) {
            Ok(u) => Ok(u),
            Err(_) => Err(LookupError::UrlConstruction),
        }
    }
}

proof fn lemma_form_encode_safe(b: Seq<u8>)
    ensures
        query_safe(form_encode(b)),
    decreases b.len(),
{
    if b.len() > 0 {
        lemma_form_encode_safe(b.drop_first());
        let head = form_encode_byte(b[0]);
        let tail = form_encode(b.drop_first());
        assert(form_encode(b) == head + tail);
        assert forall|i: int| 0 <= i < head.len() implies query_safe_char(#[trigger] head[i]) by {
            let x = b[0];
            assert(query_safe_char(hex_digit(x / 16)) && query_safe_char(hex_digit(x % 16)));
        }
        assert forall|i: int| 0 <= i < form_encode(b).len() implies query_safe_char(
            #[trigger] form_encode(b)[i],
        ) by {
            if i >= head.len() {
                assert(form_encode(b)[i] == tail[i - head.len()]);
            }
        }
    }
}

proof fn lemma_concat_safe(a: Seq<char>, b: Seq<char>)
    requires
        query_safe(a),
        query_safe(b),
    ensures
        query_safe(a + b),
{
    assert forall|i: int| 0 <= i < (a + b).len() implies query_safe_char(#[trigger] (a + b)[i]) by {
        if i >= a.len() {
            assert((a + b)[i] == b[i - a.len()]);
        } else {
            assert((a + b)[i] == a[i]);
        }
    }
}

proof fn lemma_pairs_safe(ps: Seq<(Seq<char>, Seq<char>)>)
    ensures
        query_safe(pairs_text(ps)),
    decreases ps.len(),
{
    if ps.len() > 0 {
        let p = ps.last();
        lemma_form_encode_safe(encode_utf8(p.0));
        lemma_form_encode_safe(encode_utf8(p.1));
        lemma_concat_safe(encoded(p.0), seq!['=']);
        lemma_concat_safe(encoded(p.0) + seq!['='], encoded(p.1));
        if ps.len() > 1 {
            lemma_pairs_safe(ps.drop_last());
            lemma_concat_safe(pairs_text(ps.drop_last()), seq!['&']);
            lemma_concat_safe(pairs_text(ps.drop_last()) + seq!['&'], pair_text(p.0, p.1));
        } else {
            assert(ps[0] == p);
        }
    }
}

pub open spec fn is_ascii_alphanumeric(w: Seq<char>) -> bool {
    forall|i: int|
        0 <= i < w.len() ==> ('0' <= #[trigger] w[i] <= '9') || ('A' <= w[i] <= 'Z') || ('a'
            <= w[i] <= 'z')
}

/// Whether `needle` occurs in `hay` as a contiguous run.
pub open spec fn contains(hay: Seq<char>, needle: Seq<char>) -> bool {
    exists|i: int|
        0 <= i <= hay.len() - needle.len() && #[trigger] hay.subrange(i, i + needle.len())
            == needle
}

/// The value of the last parameter of a query: what follows the last `=`.
pub open spec fn last_value(u: Seq<char>) -> Seq<char>
    decreases u.len(),
{
    if u.len() == 0 {
        u
    } else if u.last() == '=' {
        Seq::empty()
    } else {
        last_value(u.drop_last()).push(u.last())
    }
}

proof fn lemma_form_encode_unchanged(b: Seq<u8>)
    requires
        forall|i: int| 0 <= i < b.len() ==> unchanged_byte(#[trigger] b[i]),
    ensures
        form_encode(b) == Seq::new(b.len(), |i: int| b[i] as char),
    decreases b.len(),
{
    if b.len() > 0 {
        lemma_form_encode_unchanged(b.drop_first());
        assert(form_encode(b) =~= Seq::new(b.len(), |i: int| b[i] as char));
    }
}

/// A word of ASCII letters and digits is serialised as it is.
proof fn lemma_alphanumeric_encoded(w: Seq<char>)
    requires
        is_ascii_alphanumeric(w),
    ensures
        encoded(w) == w,
{
    let b = encode_utf8(w);
    assert(vstd::utf8::is_ascii_chars(w));
    vstd::utf8::is_ascii_chars_encode_utf8(w);
    assert forall|i: int| 0 <= i < b.len() implies unchanged_byte(#[trigger] b[i]) by {
        assert(w[i] as u8 == b[i]);
    }
    lemma_form_encode_unchanged(b);
    assert forall|i: int| 0 <= i < w.len() implies (b[i] as char) == w[i] by {
        assert(w[i] as u8 == b[i]);
    }
    assert(encoded(w) =~= w);
}

proof fn lemma_encoded_has_no_equals(b: Seq<u8>)
    ensures
        forall|i: int| 0 <= i < form_encode(b).len() ==> #[trigger] form_encode(b)[i] != '=',
    decreases b.len(),
{
    if b.len() > 0 {
        lemma_encoded_has_no_equals(b.drop_first());
        let head = form_encode_byte(b[0]);
        let tail = form_encode(b.drop_first());
        assert forall|i: int| 0 <= i < head.len() implies head[i] != '=' by {
            let x = b[0];
            assert(hex_digit(x / 16) != '=' && hex_digit(x % 16) != '=');
        }
        assert forall|i: int| 0 <= i < form_encode(b).len() implies #[trigger] form_encode(b)[i]
            != '=' by {
            if i >= head.len() {
                assert(form_encode(b)[i] == tail[i - head.len()]);
            }
        }
    }
}

proof fn lemma_last_value(p: Seq<char>, v: Seq<char>)
    requires
        forall|i: int| 0 <= i < v.len() ==> #[trigger] v[i] != '=',
    ensures
        last_value(p.push('=') + v) == v,
    decreases v.len(),
{
    let u = p.push('=') + v;
    if v.len() == 0 {
        assert(u =~= p.push('='));
    } else {
        assert(u.drop_last() =~= p.push('=') + v.drop_last());
        lemma_last_value(p, v.drop_last());
        assert(v =~= v.drop_last().push(v.last()));
    }
}

/// A serialised URL up to its fragment.
pub open spec fn before_fragment(u: Seq<char>) -> Seq<char>
    decreases u.len(),
{
    if u.len() == 0 {
        u
    } else if u[0] == '#' {
        Seq::empty()
    } else {
        seq![u[0]] + before_fragment(u.drop_first())
    }
}

/// The word a request URL carries: its last query value, form-decoded and
/// read as UTF-8.
pub open spec fn carried_word(u: Seq<char>) -> Seq<char> {
    decode_utf8(form_decode(last_value(before_fragment(u))))
}

proof fn lemma_before_query_no_hash(s: Seq<char>)
    ensures
        forall|i: int| 0 <= i < before_query(s).len() ==> #[trigger] before_query(s)[i] != '#',
    decreases s.len(),
{
    if s.len() > 0 && s[0] != '?' && s[0] != '#' {
        lemma_before_query_no_hash(s.drop_first());
        let r = before_query(s.drop_first());
        assert forall|i: int| 0 <= i < before_query(s).len() implies #[trigger] before_query(s)[i]
            != '#' by {
            if i > 0 {
                assert(before_query(s)[i] == r[i - 1]);
            }
        }
    }
}

proof fn lemma_fragment_shape(s: Seq<char>)
    ensures
        fragment(s).len() == 0 || fragment(s)[0] == '#',
    decreases s.len(),
{
    if s.len() > 0 && s[0] != '#' {
        lemma_fragment_shape(s.drop_first());
    }
}

proof fn lemma_before_fragment(x: Seq<char>, f: Seq<char>)
    requires
        forall|i: int| 0 <= i < x.len() ==> #[trigger] x[i] != '#',
        f.len() == 0 || f[0] == '#',
    ensures
        before_fragment(x + f) == x,
    decreases x.len(),
{
    if x.len() == 0 {
        assert(x + f =~= f);
    } else {
        assert((x + f).drop_first() =~= x.drop_first() + f);
        lemma_before_fragment(x.drop_first(), f);
        assert(x =~= seq![x[0]] + x.drop_first());
    }
}

/// The request URL of `word`, split where the word's value starts: all that
/// comes before `q=`, and the fragment kept from the endpoint.
proof fn lemma_url_shape(endpoint: Seq<char>, keyfrom: Seq<char>, key: Seq<char>, w: Seq<char>) -> (parts: (Seq<char>, Seq<char>))
    requires
        request_url(endpoint, keyfrom, key, w) is Some,
    ensures
        request_url(endpoint, keyfrom, key, w)->Some_0 == parts.0 + seq!['q', '='] + encoded(w) + parts.1,
        forall|i: int| 0 <= i < parts.0.len() ==> #[trigger] parts.0[i] != '#',
        parts.1.len() == 0 || parts.1[0] == '#',
{
    let s = url_serialization(endpoint)->Some_0;
    let ps = request_pairs(keyfrom, key, w);
    reveal_strlit("q");
    lemma_alphanumeric_encoded("q"@);
    assert(ps.drop_last() =~= ps.take(5));
    let first = pairs_text(ps.drop_last());
    lemma_pairs_safe(ps.drop_last());
    lemma_before_query_no_hash(s);
    lemma_fragment_shape(s);
    let head = before_query(s) + seq!['?'] + first + seq!['&'];
    assert(pairs_text(ps) == first + seq!['&'] + pair_text("q"@, w));
    assert(request_url(endpoint, keyfrom, key, w)->Some_0 =~= head + seq!['q', '='] + encoded(w)
        + fragment(s));
    assert forall|i: int| 0 <= i < head.len() implies #[trigger] head[i] != '#' by {
        let bq = before_query(s);
        if i < bq.len() {
            assert(head[i] == bq[i]);
        } else if i > bq.len() && i < bq.len() + 1 + first.len() {
            assert(head[i] == first[i - bq.len() - 1]);
            assert(query_safe_char(first[i - bq.len() - 1]));
        }
    }
    (head, fragment(s))
}

/// A word made of ASCII letters and digits stands in its request URL as
/// `q=` followed by the word itself.
pub proof fn lemma_alphanumeric_word_in_url(b: QueryBuilder, w: Seq<char>)
    requires
        is_ascii_alphanumeric(w),
    ensures
        b.url_for(w) is Some ==> contains(b.url_for(w)->Some_0, "q="@ + w),
{
    if b.url_for(w) is Some {
        let (head, tail) = lemma_url_shape(b.endpoint@, b.keyfrom@, b.key@, w);
        lemma_alphanumeric_encoded(w);
        reveal_strlit("q=");
        let u = b.url_for(w)->Some_0;
        let needle = "q="@ + w;
        assert(u =~= head + needle + tail);
        assert(u.subrange(head.len() as int, (head.len() + needle.len()) as int) =~= needle);
    }
}

/// Any word is recovered from its request URL by form-decoding the value of
/// the last query parameter and reading the bytes as UTF-8.
pub proof fn lemma_word_round_trip(b: QueryBuilder, w: Seq<char>)
    ensures
        b.url_for(w) is Some ==> carried_word(b.url_for(w)->Some_0) == w,
{
    lemma_request_round_trip(b.endpoint@, b.keyfrom@, b.key@, w);
}

/// The round trip for any endpoint and identity.
pub proof fn lemma_request_round_trip(endpoint: Seq<char>, keyfrom: Seq<char>, key: Seq<char>, w: Seq<char>)
    ensures
        request_url(endpoint, keyfrom, key, w) is Some ==> carried_word(
            request_url(endpoint, keyfrom, key, w)->Some_0,
        ) == w,
{
    if request_url(endpoint, keyfrom, key, w) is Some {
        let (head, tail) = lemma_url_shape(endpoint, keyfrom, key, w);
        let v = encoded(w);
        lemma_encoded_has_no_equals(encode_utf8(w));
        lemma_form_encode_safe(encode_utf8(w));
        let x = head.push('q').push('=') + v;
        assert forall|i: int| 0 <= i < x.len() implies #[trigger] x[i] != '#' by {
            if i >= head.len() + 2 {
                assert(x[i] == v[i - head.len() - 2]);
                assert(query_safe_char(v[i - head.len() - 2]));
            } else if i < head.len() {
                assert(x[i] == head[i]);
            }
        }
        assert(request_url(endpoint, keyfrom, key, w)->Some_0 =~= x + tail);
        lemma_before_fragment(x, tail);
        lemma_last_value(head.push('q'), v);
        assert(head.push('q').push('=') + v =~= x);
        lemma_text_round_trip(w);
    }
}

/// Distinct words are never sent as the same request: a URL names its word.
pub proof fn lemma_distinct_words_distinct_urls(b: QueryBuilder, w1: Seq<char>, w2: Seq<char>)
    requires
        w1 != w2,
    ensures
        b.url_for(w1) is Some && b.url_for(w2) is Some ==> b.url_for(w1) != b.url_for(w2),
{
    lemma_word_round_trip(b, w1);
    lemma_word_round_trip(b, w2);
}

} // verus!
