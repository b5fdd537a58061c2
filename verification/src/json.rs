//! The few pieces of JSON that the broker writes itself: string literals,
//! which `serde_json` encodes, and the framing of lists around them.

use vstd::prelude::*;

verus! {

/// `serde_json::Error`, as `serde_json::to_string` may return it.
#[verifier::external_type_specification]
#[verifier::external_body]
pub struct ExJsonError(serde_json::Error);

/// The JSON string literal that `serde_json::to_string` writes for the text
/// `s`: the text between double quotes, with the escapes that JSON asks for.
pub uninterp spec fn json_string(s: Seq<char>) -> Seq<char>;

/// `serde_json::to_string` on a string slice. Trusted: the call succeeds,
/// since a string slice always serializes and nothing but the encoder can
/// fail, and its result depends on the characters of `s` alone.
#[verifier::external_body]
fn to_json(s: &str) -> (r: Result<String, serde_json::Error>)
    ensures
        r is Ok,
        r->Ok_0@ == json_string(s@),
{
    serde_json::to_string(s)
}

/// `s` as a JSON string literal.
pub fn quote(s: &str) -> (r: String)
    ensures
        r@ == json_string(s@),
{
    match to_json(s) {
        Ok(t) => t,
        Err(_) => vstd::pervasive::unreached(),
    }
}

/// Each of `items` as a JSON string literal.
pub open spec fn json_strings(items: Seq<Seq<char>>) -> Seq<Seq<char>> {
    Seq::new(items.len(), |i: int| json_string(items[i]))
}

/// Each of `items` as a JSON string literal.
pub fn quote_all(items: &Vec<String>) -> (r: Vec<String>)
    ensures
        r.deep_view() == json_strings(items.deep_view()),
{
    let mut r: Vec<String> = Vec::new();
    let mut i: usize = 0;
    while i < items.len()
        invariant
            i <= items.len(),
            r.len() == i,
            forall|k: int| 0 <= k < i ==> (#[trigger] r[k])@ == json_string(items[k]@),
        decreases items.len() - i,
    {
        r.push(quote(items[i].as_str()));
        i += 1;
    }
    assert(r.deep_view() =~= json_strings(items.deep_view()));
    r
}

/// The texts with a comma between each two.
pub open spec fn comma_separated(values: Seq<Seq<char>>) -> Seq<char>
    decreases values.len(),
{
    if values.len() == 0 {
        Seq::empty()
    } else if values.len() == 1 {
        values[0]
    } else {
        comma_separated(values.drop_last()) + seq![','] + values.last()
    }
}

/// The JSON array of `values`, each of which is the text of a JSON value.
pub open spec fn framed_array(values: Seq<Seq<char>>) -> Seq<char> {
    seq!['['] + comma_separated(values) + seq![']']
}

/// The JSON array of `values`, each of which is the text of a JSON value.
pub fn frame_array(values: &Vec<String>) -> (r: String)
    ensures
        r@ == framed_array(values.deep_view()),
{
    proof {
        reveal_strlit("[");
        reveal_strlit(",");
        reveal_strlit("]");
    }
    let ghost all = values.deep_view();
    let mut r: String = "[".to_owned();
    let mut i: usize = 0;
    proof {
        assert(all.take(0) =~= Seq::empty());
        assert(r@ =~= seq!['['] + comma_separated(all.take(0)));
    }
    while i < values.len()
        invariant
            i <= values.len(),
            all == values.deep_view(),
            ","@ == seq![','],
            r@ == seq!['['] + comma_separated(all.take(i as int)),
        decreases values.len() - i,
    {
        proof {
            let now = all.take(i + 1);
            assert(now.drop_last() =~= all.take(i as int));
            assert(now.last() == values[i as int]@);
        }
        if i > 0 {
            r.append(",");
        }
        r.append(values[i].as_str());
        proof {
            assert(r@ =~= seq!['['] + comma_separated(all.take(i + 1)));
        }
        i += 1;
    }
    proof {
        assert(all.take(i as int) =~= all);
    }
    r.append("]");
    r
}

/// The JSON array of the texts `items` as string literals.
pub open spec fn json_array(items: Seq<Seq<char>>) -> Seq<char> {
    framed_array(json_strings(items))
}

/// The JSON array of the texts `items` as string literals.
pub fn array(items: &Vec<String>) -> (r: String)
    ensures
        r@ == json_array(items.deep_view()),
{
    let quoted = quote_all(items);
    frame_array(&quoted)
}

} // verus!
