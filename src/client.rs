use crate::error::LookupError;
use crate::query::{API, API_KEY, ENDPOINT, QueryBuilder, carried_word, lemma_request_round_trip, request_url};
use crate::response::{ResponseModel, YdResponse, decode, decode_outcome, lemma_decode_deterministic};
use vstd::prelude::*;
use vstd::utf8::{decode_utf8, valid_utf8};

verus! {

/// What `String::from_utf8_lossy` reads a byte string as.
pub uninterp spec fn lossy_text(b: Seq<u8>) -> Seq<char>;

/// Relies on String::from_utf8_lossy: valid UTF-8 is read as it is, anything
/// else with replacement characters; the text depends on the bytes alone.
#[verifier::external_body]
fn text_from_bytes(b: &[u8]) -> (r: String)
    ensures
        r@ == lossy_text(b@),
        valid_utf8(b@) ==> r@ == decode_utf8(b@),
{
    String::from_utf8_lossy(b).into_owned()
}

/// What a lookup may answer once the body has been read as `text`: the text
/// itself in raw mode, else what decoding it gives.
pub open spec fn lookup_outcome(text: Seq<char>, raw: bool, r: Result<YdResponse, LookupError>) -> bool {
    if raw {
        r is Ok && r->Ok_0@ == ResponseModel::Raw(text)
    } else {
        decode_outcome(text, r)
    }
}

/// The answer to a lookup whose body reads as `text`.
pub fn respond(text: String, raw: bool) -> (r: Result<YdResponse, LookupError>)
    ensures
        lookup_outcome(text@, raw, r),
{
    if raw {
        Ok(YdResponse::new_raw(text))
    } else {
        decode(text.as_str())
    }
}

/// The answer to a lookup whose body came as the bytes `body`.
pub fn complete_lookup(body: &[u8], raw: bool) -> (r: Result<YdResponse, LookupError>)
    ensures
        lookup_outcome(lossy_text(body@), raw, r),
        valid_utf8(body@) ==> lookup_outcome(decode_utf8(body@), raw, r),
{
    respond(text_from_bytes(body), raw)
}

/// What a lookup answers once the transport has answered `fetched`: its
/// failure as a `Transport` error with the message unchanged, else the
/// answer for the body.
pub open spec fn fetched_outcome(fetched: Result<Vec<u8>, String>, raw: bool, r: Result<YdResponse, LookupError>) -> bool {
    match fetched {
        Err(m) => r == Err::<YdResponse, LookupError>(LookupError::Transport(m)),
        Ok(body) => lookup_outcome(lossy_text(body@), raw, r),
    }
}

/// The answer to a lookup whose transport answered `fetched`.
pub fn finish_lookup(fetched: Result<Vec<u8>, String>, raw: bool) -> (r: Result<YdResponse, LookupError>)
    ensures
        fetched_outcome(fetched, raw, r),
        fetched is Ok && valid_utf8(fetched->Ok_0@) ==> lookup_outcome(decode_utf8(fetched->Ok_0@), raw, r),
{
    match fetched {
        Ok(body) => complete_lookup(body.as_slice(), raw),
        Err(message) => Err(LookupError::Transport(message)),
    }
}

/// The URL a lookup of `word` fetches.
pub open spec fn lookup_url(word: Seq<char>) -> Option<Seq<char>> {
    request_url(ENDPOINT@, API@, API_KEY@, word)
}

/// Lookups of different words do not mix: each request URL carries its own
/// word and no other, the two URLs differ, and each answer is a function of
/// what the transport gave for that lookup alone.
pub proof fn lemma_lookups_do_not_interfere(
    w1: Seq<char>,
    w2: Seq<char>,
    raw: bool,
    f: Result<Vec<u8>, String>,
    r1: Result<YdResponse, LookupError>,
    r2: Result<YdResponse, LookupError>,
)
    requires
        w1 != w2,
        lookup_url(w1) is Some,
        lookup_url(w2) is Some,
        fetched_outcome(f, raw, r1),
        fetched_outcome(f, raw, r2),
    ensures
        carried_word(lookup_url(w1)->Some_0) == w1,
        carried_word(lookup_url(w2)->Some_0) == w2,
        lookup_url(w1) != lookup_url(w2),
        r1 is Ok <==> r2 is Ok,
        r1 is Ok ==> r1->Ok_0@ == r2->Ok_0@,
{
    lemma_request_round_trip(ENDPOINT@, API@, API_KEY@, w1);
    lemma_request_round_trip(ENDPOINT@, API@, API_KEY@, w2);
    if let Ok(body) = f {
        if !raw {
            lemma_decode_deterministic(lossy_text(body@), r1, r2);
        }
    }
}

/// A client of the dictionary service. Implementors supply the transport;
/// looking up and decoding are provided.
pub trait YdClient: Sized {
    /// Fetches the body found at `url`; an error carries the transport's
    /// message.
    fn get_body(&mut self, url: &str) -> Result<Vec<u8>, String>;

    /// Looks `word` up, and returns the body as it came when `raw` holds,
    /// else the entry decoded from it.
    fn lookup_word(&mut self, word: &str, raw: bool) -> (r: Result<YdResponse, LookupError>)
        ensures
            lookup_url(word@) is None ==> r is Err && r->Err_0 is UrlConstruction,
            lookup_url(word@) is Some ==> exists|fetched: Result<Vec<u8>, String>|
                #[trigger] fetched_outcome(fetched, raw, r),
    {
        let url = match QueryBuilder::new().build(word) {
            Ok(u) => u,
            Err(e) => return Err(e),
        };
        let fetched = self.get_body(url.as_str());
        let ghost kept = fetched;
        let r = finish_lookup(fetched, raw);
        assert(fetched_outcome(kept, raw, r));
        r
    }

    /// Decodes an answer of the service that was kept as text.
    fn decode_result(&mut self, result: &str) -> (r: Result<YdResponse, LookupError>)
        ensures
            decode_outcome(result@, r),
            *final(self) == *old(self),
    {
        decode(result)
    }
}

} // verus!
