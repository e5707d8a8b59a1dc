use rustc_serialize::json::Json;
use url::Url;
use ydcv::{complete_lookup, decode, finish_lookup, respond, JsonValue, LookupError, QueryBuilder, YdClient, YdEntry, YdResponse};

/// A service double that answers every request with the same body.
struct FixedBody {
    body: Vec<u8>,
    requested: Vec<String>,
}

impl YdClient for FixedBody {
    fn get_body(&mut self, url: &str) -> Result<Vec<u8>, String> {
        self.requested.push(url.to_string());
        Ok(self.body.clone())
    }
}

fn fixed(body: &str) -> FixedBody {
    FixedBody { body: body.as_bytes().to_vec(), requested: Vec::new() }
}

/// A service double that answers with an entry for the word it was asked.
struct EchoService;

impl YdClient for EchoService {
    fn get_body(&mut self, url: &str) -> Result<Vec<u8>, String> {
        let parsed = Url::parse(url).map_err(|e| e.to_string())?;
        let word = parsed
            .query_pairs()
            .find(|(k, _)| k == "q")
            .map(|(_, v)| v.into_owned())
            .ok_or_else(|| "no word".to_string())?;
        let body = format!("{{\"query\":{},\"errorCode\":0}}", Json::String(word));
        Ok(body.into_bytes())
    }
}

/// A service double whose transport always fails.
struct Unreachable;

impl YdClient for Unreachable {
    fn get_body(&mut self, _url: &str) -> Result<Vec<u8>, String> {
        Err("connection refused".to_string())
    }
}

fn query_value(url: &str) -> String {
    let parsed = Url::parse(url).unwrap();
    let found = parsed.query_pairs().find(|(k, _)| k == "q").map(|(_, v)| v.into_owned());
    found.unwrap()
}

#[test]
fn test_lookup_word_0() {
    assert_eq!("YdResponse('hello')", EchoService.lookup_word("hello", false).unwrap().to_text());
}

#[test]
fn test_lookup_word_1() {
    assert_eq!("YdResponse('world')", EchoService.lookup_word("world", false).unwrap().to_text());
}

#[test]
fn test_lookup_word_2() {
    assert_eq!("YdResponse('<+*>?_')", EchoService.lookup_word("<+*>?_", false).unwrap().to_text());
}

#[test]
fn built_url_is_exact() {
    let url = QueryBuilder::new().build("hello").unwrap();
    assert_eq!(
        url,
        "http://fanyi.youdao.com/openapi.do?keyfrom=YouDaoCV&key=659600698&type=data&doctype=json&version=1.1&q=hello"
    );
}

#[test]
fn alphanumeric_word_appears_literally() {
    let url = QueryBuilder::new().build("Hello42world").unwrap();
    assert!(url.contains("q=Hello42world"));
}

#[test]
fn reserved_characters_are_encoded() {
    let url = QueryBuilder::new().build("a b<>?&=+").unwrap();
    assert!(url.ends_with("&q=a+b%3C%3E%3F%26%3D%2B"));
}

#[test]
fn reserved_word_round_trips() {
    for word in ["<+*>?_", "a b", "x=y&z", "100%", "#frag", "你好"] {
        let url = QueryBuilder::new().build(word).unwrap();
        assert_eq!(query_value(&url), word);
    }
}

#[test]
fn non_ascii_word_is_percent_encoded() {
    let url = QueryBuilder::new().build("é").unwrap();
    assert!(url.ends_with("q=%C3%A9"));
}

#[test]
fn custom_endpoint_is_used() {
    let b = QueryBuilder::with_identity("http://localhost:8080/api", "me", "k 1");
    assert_eq!(
        b.build("w").unwrap(),
        "http://localhost:8080/api?keyfrom=me&key=k+1&type=data&doctype=json&version=1.1&q=w"
    );
}

#[test]
fn endpoint_is_normalised_by_the_parser() {
    let b = QueryBuilder::with_identity("HTTP://Example.COM", "a", "b");
    assert!(b.build("w").unwrap().starts_with("http://example.com/?keyfrom=a"));
}

#[test]
fn malformed_endpoint_is_rejected() {
    let b = QueryBuilder::with_identity("not a url", "a", "b");
    assert!(matches!(b.build("w"), Err(LookupError::UrlConstruction)));
}

#[test]
fn endpoint_query_is_replaced() {
    let b = QueryBuilder::with_identity("http://example.com/x?y=1", "a", "b");
    assert_eq!(
        b.build("w").unwrap(),
        "http://example.com/x?keyfrom=a&key=b&type=data&doctype=json&version=1.1&q=w"
    );
}

#[test]
fn endpoint_fragment_is_kept() {
    let b = QueryBuilder::with_identity("http://example.com/x?old#top", "a", "b");
    let url = b.build("a b#c").unwrap();
    assert_eq!(
        url,
        "http://example.com/x?keyfrom=a&key=b&type=data&doctype=json&version=1.1&q=a+b%23c#top"
    );
    assert_eq!(query_value(&url), "a b#c");
}

#[test]
fn overlong_word_is_refused() {
    let word = "x".repeat(16_777_217);
    assert!(matches!(QueryBuilder::new().build(&word), Err(LookupError::UrlConstruction)));
}

#[test]
fn raw_lookup_returns_body_verbatim() {
    let mut service = fixed("<html>not json at all");
    let r = service.lookup_word("hello", true).unwrap();
    assert_eq!(r.raw_result(), Some("<html>not json at all".to_string()));
    assert_eq!(r.to_text(), "<html>not json at all");
}

#[test]
fn lookup_requests_the_built_url() {
    let mut service = fixed("{}");
    service.lookup_word("hello", false).unwrap();
    assert_eq!(service.requested, vec![QueryBuilder::new().build("hello").unwrap()]);
}

#[test]
fn decoded_lookup_reads_query_and_translation() {
    let mut service = fixed("{\"query\":\"hello\",\"translation\":[\"你好\"]}");
    match service.lookup_word("hello", false).unwrap() {
        YdResponse::Decoded(e) => {
            assert_eq!(e.query, Some("hello".to_string()));
            assert_eq!(e.translation, vec!["你好".to_string()]);
            assert!(e.explains.is_empty());
            assert!(e.web.is_empty());
            assert_eq!(e.phonetic, None);
        }
        YdResponse::Raw(_) => panic!("expected a decoded entry"),
    }
}

#[test]
fn truncated_json_is_a_decode_error() {
    let mut service = fixed("{\"query\":");
    match service.lookup_word("hello", false) {
        Err(LookupError::Decode { body, .. }) => assert_eq!(body, "{\"query\":"),
        other => panic!("unexpected {:?}", other),
    }
}

#[test]
fn wrong_shape_is_a_decode_error() {
    assert!(matches!(decode("[1, 2]"), Err(LookupError::Decode { .. })));
    assert!(matches!(decode("{\"query\": 3}"), Err(LookupError::Decode { .. })));
    assert!(matches!(decode("{\"translation\": [\"a\", 1]}"), Err(LookupError::Decode { .. })));
    assert!(matches!(decode("{\"basic\": \"x\"}"), Err(LookupError::Decode { .. })));
    assert!(matches!(decode("{\"web\": [{\"value\": []}]}"), Err(LookupError::Decode { .. })));
}

#[test]
fn transport_failure_is_passed_on() {
    match Unreachable.lookup_word("hello", false) {
        Err(LookupError::Transport(m)) => assert_eq!(m, "connection refused"),
        other => panic!("unexpected {:?}", other),
    }
}

#[test]
fn decoding_twice_gives_equal_entries() {
    let text = "{\"query\":\"good\",\"basic\":{\"phonetic\":\"gʊd\",\"explains\":[\"adj. 好的\"]},\"web\":[{\"key\":\"Good\",\"value\":[\"好\",\"良好\"]}]}";
    let a = decode(text).unwrap();
    let b = EchoService.decode_result(text).unwrap();
    match (a, b) {
        (YdResponse::Decoded(x), YdResponse::Decoded(y)) => {
            assert_eq!(x.query, y.query);
            assert_eq!(x.phonetic, y.phonetic);
            assert_eq!(x.translation, y.translation);
            assert_eq!(x.explains, y.explains);
            assert_eq!(x.web.len(), y.web.len());
            assert_eq!(x.web[0].key, y.web[0].key);
            assert_eq!(x.web[0].value, y.web[0].value);
        }
        _ => panic!("expected decoded entries"),
    }
}

#[test]
fn full_entry_is_decoded() {
    let text = "{\"query\":\"good\",\"errorCode\":0,\"basic\":{\"us-phonetic\":\"x\",\"phonetic\":\"gʊd\",\"explains\":[\"adj. 好的\",\"n. 好处\"]},\"web\":[{\"key\":\"Good\",\"value\":[\"好\",\"良好\"]},{\"key\":\"good luck\"}],\"extra\":1.5}";
    match decode(text).unwrap() {
        YdResponse::Decoded(e) => {
            assert_eq!(e.query, Some("good".to_string()));
            assert_eq!(e.phonetic, Some("gʊd".to_string()));
            assert_eq!(e.explains, vec!["adj. 好的".to_string(), "n. 好处".to_string()]);
            assert_eq!(e.web.len(), 2);
            assert_eq!(e.web[0].key, "Good");
            assert_eq!(e.web[0].value, vec!["好".to_string(), "良好".to_string()]);
            assert_eq!(e.web[1].key, "good luck");
            assert!(e.web[1].value.is_empty());
        }
        YdResponse::Raw(_) => panic!("expected a decoded entry"),
    }
}

#[test]
fn null_fields_count_as_absent() {
    let r = decode("{\"query\":null,\"translation\":null,\"basic\":null,\"web\":null}").unwrap();
    assert_eq!(r.to_text(), "YdResponse('')");
    match r {
        YdResponse::Decoded(e) => {
            assert_eq!(e.query, None);
            assert!(e.translation.is_empty());
        }
        YdResponse::Raw(_) => panic!("expected a decoded entry"),
    }
}

#[test]
fn words_do_not_mix_on_one_client() {
    let mut service = EchoService;
    let words = ["alpha", "beta", "gamma"];
    let answers: Vec<String> =
        words.iter().map(|w| service.lookup_word(w, false).unwrap().to_text()).collect();
    assert_eq!(answers, vec!["YdResponse('alpha')", "YdResponse('beta')", "YdResponse('gamma')"]);
}

#[test]
fn invalid_utf8_body_is_read_lossily() {
    let r = complete_lookup(&[b'a', 0xff, b'b'], true).unwrap();
    assert_eq!(r.raw_result(), Some("a\u{fffd}b".to_string()));
}

#[test]
fn valid_utf8_body_is_kept() {
    let r = complete_lookup("你好".as_bytes(), true).unwrap();
    assert_eq!(r.to_text(), "你好");
}

#[test]
fn respond_decodes_unless_raw() {
    assert_eq!(respond("{\"query\":\"hi\"}".to_string(), false).unwrap().to_text(), "YdResponse('hi')");
    assert_eq!(respond("{\"query\":\"hi\"}".to_string(), true).unwrap().to_text(), "{\"query\":\"hi\"}");
}

#[test]
fn entry_from_json_model() {
    let v = JsonValue::Object(vec![
        ("query".to_string(), JsonValue::Str("cat".to_string())),
        ("translation".to_string(), JsonValue::Array(vec![JsonValue::Str("猫".to_string())])),
        ("errorCode".to_string(), JsonValue::Int(0)),
    ]);
    let e = YdEntry::from_json(&v).unwrap();
    assert_eq!(e.query, Some("cat".to_string()));
    assert_eq!(e.translation, vec!["猫".to_string()]);
    assert!(YdEntry::from_json(&JsonValue::Array(vec![])).is_none());
    assert!(YdEntry::from_json(&JsonValue::Object(vec![("query".to_string(), JsonValue::Bool(true))])).is_none());
}

#[test]
fn distinct_words_give_distinct_urls() {
    let b = QueryBuilder::new();
    let words = ["a b", "a+b", "a%20b", "a&b", "ab"];
    let urls: Vec<String> = words.iter().map(|w| b.build(w).unwrap()).collect();
    for i in 0..urls.len() {
        for j in 0..urls.len() {
            assert_eq!(i == j, urls[i] == urls[j]);
        }
    }
}

#[test]
fn overlong_exponent_is_a_decode_error() {
    let text = "{\"query\":\"x\",\"n\":1e99999999999999999999}";
    match decode(text) {
        Err(LookupError::Decode { message, body }) => {
            assert_eq!(message, "the text nests too deeply or has an overlong exponent");
            assert_eq!(body, text);
        }
        other => panic!("unexpected {:?}", other),
    }
    assert!(matches!(decode("1E-99999999999999999999"), Err(LookupError::Decode { .. })));
}

#[test]
fn short_exponent_is_parsed() {
    let r = decode("{\"query\":\"x\",\"n\":1e9999999999999999999}").unwrap();
    assert_eq!(r.to_text(), "YdResponse('x')");
}

#[test]
fn deep_nesting_is_a_decode_error() {
    let text = format!("{}{}", "[".repeat(100_000), "]".repeat(100_000));
    assert!(matches!(decode(&text), Err(LookupError::Decode { .. })));
    let fine = format!("{{\"web\":{}{}}}", "[".repeat(1), "]".repeat(1));
    assert!(decode(&fine).is_ok());
}

#[test]
fn parse_failure_carries_the_parser_diagnostic() {
    let text = "{\"query\":";
    let expected = Json::from_str(text).unwrap_err().to_string();
    match decode(text) {
        Err(LookupError::Decode { message, .. }) => assert_eq!(message, expected),
        other => panic!("unexpected {:?}", other),
    }
}

#[test]
fn wrong_shape_names_the_reason() {
    match decode("[]") {
        Err(LookupError::Decode { message, .. }) => {
            assert_eq!(message, "the document is not a dictionary entry")
        }
        other => panic!("unexpected {:?}", other),
    }
}

#[test]
fn finish_lookup_passes_transport_errors_on() {
    match finish_lookup(Err("timed out".to_string()), true) {
        Err(LookupError::Transport(m)) => assert_eq!(m, "timed out"),
        other => panic!("unexpected {:?}", other),
    }
    let r = finish_lookup(Ok(b"{\"query\":\"a\"}".to_vec()), false).unwrap();
    assert_eq!(r.to_text(), "YdResponse('a')");
}
