//! The one JSON gate of the library: reading a text as a JSON object and
//! handing its members out as plain word/definition pairs.
use vstd::prelude::*;

verus! {

/// What reading a text as JSON yields: `Some` exactly when the text parses
/// as a JSON object, and then the object's members in iteration order, each
/// value written back out as text. A function of the text alone.
pub uninterp spec fn json_dict_entries(s: Seq<char>) -> Option<Seq<(Seq<char>, Seq<char>)>>;

/// The members of an entry list, viewed as character sequences.
pub open spec fn entries_view(v: Seq<(String, String)>) -> Seq<(Seq<char>, Seq<char>)> {
    Seq::new(v.len(), |i: int| (v[i].0@, v[i].1@))
}

/// Relies on serde_json::from_str::<serde_json::Value> to parse the text,
/// serde_json::Value::as_object to insist on a JSON object, and
/// serde_json::to_string to write each member's value back out. serde_json
/// keeps object members ordered by key and resolves a duplicated key to the
/// later member, so the result depends on the text alone.
#[verifier::external_body]
pub fn parse_dict_entries(text: &str) -> (r: Option<Vec<(String, String)>>)
    ensures
        match r {
            Some(v) => json_dict_entries(text@) == Some(entries_view(v@)),
            None => json_dict_entries(text@) is None,
        },
{
    let value: serde_json::Value = serde_json::from_str(text).ok()?;
    let mut out: Vec<(String, String)> = Vec::new();
    for (k, v) in value.as_object()? {
        out.push((k.clone(), serde_json::to_string(v).ok()?));
    }
    Some(out)
}

} // verus!
