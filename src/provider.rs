use crate::store::views;
use vstd::prelude::*;

verus! {

/// The address of the single-word request: `{endpoint}?word={word}`.
pub open spec fn word_url(endpoint: Seq<char>, word: Seq<char>) -> Seq<char> {
    endpoint + "?word="@ + word
}

/// The address of the batch request: `{endpoint}list`.
pub open spec fn batch_url(endpoint: Seq<char>) -> Seq<char> {
    endpoint + "list"@
}

/// The JSON array of the given strings, in order, as serde_json writes it.
pub uninterp spec fn json_of_strings(items: Seq<Seq<char>>) -> Seq<char>;

/// Relies on `serde_json::to_string` on a vector of strings: the JSON array
/// of the strings, in order. It fails only where a `Serialize` impl fails or
/// a map has a key that is not a string, neither of which a string sequence
/// written to memory can meet.
#[verifier::external_body]
fn strings_to_json(items: &Vec<String>) -> (r: String)
    ensures
        r@ == json_of_strings(views(items@)),
{
    serde_json::to_string(items).unwrap()
}

/// The address from which the embedding of one word is fetched.
pub fn word_request_url(endpoint: &str, word: &str) -> (r: String)
    ensures
        r@ == word_url(endpoint@, word@),
{
    let mut r = String::from_str(endpoint);
    r.append("?word=");
    r.append(word);
    r
}

/// The address to which a batch of words is posted.
pub fn batch_request_url(endpoint: &str) -> (r: String)
    ensures
        r@ == batch_url(endpoint@),
{
    let mut r = String::from_str(endpoint);
    r.append("list");
    r
}

/// The body of the batch request: the words as a JSON array, in order.
pub fn batch_request_body(batch: &Vec<String>) -> (r: String)
    ensures
        r@ == json_of_strings(views(batch@)),
{
    strings_to_json(batch)
}

} // verus!
